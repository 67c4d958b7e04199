//! The append-only log store. One notification per line, the five fields
//! joined by the reserved backtick delimiter; the timestamp is the first
//! field and the entry's identity key. Append validates and sanitizes;
//! deletion retains every line whose key differs; iteration parses each
//! line and skips those that do not parse.

use vstd::prelude::*;
use crate::num::{dec_of, is_digit, parse_dec, parse_i64, render_i64};
use crate::num::{lemma_dec_of_chars, lemma_parse_of_render};
use crate::record::{FieldsV, NotificationRecord};
use crate::text::{chars_to_string, sanitize, sanitized, string_to_chars};
use crate::text::{lemma_sanitized_clean};

verus! {

/// The field delimiter of the on-disk format.
pub open spec fn delim() -> char {
    '`'
}

/// The pieces of `s` between occurrences of `d`, in order. A sequence
/// without the delimiter is one piece; every delimiter ends a piece.
pub open spec fn split_at_delim(s: Seq<char>, d: char) -> Seq<Seq<char>>
    decreases s.len(),
{
    if s.len() == 0 {
        seq![s]
    } else if s[0] == d {
        seq![Seq::<char>::empty()] + split_at_delim(s.skip(1), d)
    } else {
        let r = split_at_delim(s.skip(1), d);
        seq![seq![s[0]] + r[0]] + r.skip(1)
    }
}

/// Splitting yields at least one piece.
pub proof fn lemma_split_len(s: Seq<char>, d: char)
    ensures
        split_at_delim(s, d).len() >= 1,
    decreases s.len(),
{
    if s.len() > 0 && s[0] != d {
        lemma_split_len(s.skip(1), d);
    }
}

/// A sequence free of the delimiter is a single piece.
pub proof fn lemma_split_clean(a: Seq<char>, d: char)
    requires
        forall|i: int| 0 <= i < a.len() ==> a[i] != d,
    ensures
        split_at_delim(a, d) == seq![a],
    decreases a.len(),
{
    if a.len() == 0 {
        assert(split_at_delim(a, d) == seq![a]);
    } else {
        assert(a[0] != d);
        lemma_split_clean(a.skip(1), d);
        let r = split_at_delim(a.skip(1), d);
        assert(r == seq![a.skip(1)]);
        assert(seq![a[0]] + a.skip(1) =~= a);
        assert(r.skip(1) =~= Seq::<Seq<char>>::empty());
        assert(split_at_delim(a, d) =~= seq![a]);
    }
}

/// A delimiter after a clean prefix cuts exactly there.
pub proof fn lemma_split_concat(a: Seq<char>, b: Seq<char>, d: char)
    requires
        forall|i: int| 0 <= i < a.len() ==> a[i] != d,
    ensures
        split_at_delim(a + seq![d] + b, d) == seq![a] + split_at_delim(b, d),
    decreases a.len(),
{
    let s = a + seq![d] + b;
    if a.len() == 0 {
        assert(s[0] == d);
        assert(s.skip(1) =~= b);
        assert(split_at_delim(s, d) == seq![Seq::<char>::empty()] + split_at_delim(b, d));
        assert(Seq::<char>::empty() =~= a);
        assert(seq![Seq::<char>::empty()] =~= seq![a]);
    } else {
        assert(s[0] == a[0]);
        assert(s[0] != d);
        assert(s.skip(1) =~= a.skip(1) + seq![d] + b);
        lemma_split_concat(a.skip(1), b, d);
        let r = split_at_delim(s.skip(1), d);
        assert(r == seq![a.skip(1)] + split_at_delim(b, d));
        lemma_split_len(b, d);
        assert(r[0] == a.skip(1));
        assert(seq![s[0]] + r[0] =~= a);
        assert(r.skip(1) =~= split_at_delim(b, d));
        assert(split_at_delim(s, d) =~= seq![a] + split_at_delim(b, d));
    }
}

/// Splits a character sequence at every occurrence of `d`.
#[verifier::loop_isolation(false)]
pub fn split_chars(v: &Vec<char>, d: char) -> (r: Vec<Vec<char>>)
    ensures
        r@.map_values(|p: Vec<char>| p@) == split_at_delim(v@, d),
{
    let mut parts: Vec<Vec<char>> = Vec::new();
    let mut cur: Vec<char> = Vec::new();
    let mut i: usize = 0;
    proof {
        assert(cur@ + v@.skip(0) =~= v@);
        assert(parts@.map_values(|p: Vec<char>| p@) =~= Seq::<Seq<char>>::empty());
    }
    while i < v.len()
        invariant
            i <= v@.len(),
            forall|k: int| 0 <= k < cur@.len() ==> cur@[k] != d,
            split_at_delim(v@, d) == parts@.map_values(|p: Vec<char>| p@) + split_at_delim(
                cur@ + v@.skip(i as int),
                d,
            ),
        decreases v@.len() - i,
    {
        let c = v[i];
        if c == d {
            let ghost parts0 = parts@;
            let ghost cur0 = cur@;
            parts.push(cur);
            cur = Vec::new();
            proof {
                assert(cur0 + v@.skip(i as int) =~= cur0 + seq![d] + v@.skip(i as int + 1));
                lemma_split_concat(cur0, v@.skip(i as int + 1), d);
                assert(parts@.map_values(|p: Vec<char>| p@) =~= parts0.map_values(
                    |p: Vec<char>| p@,
                ) + seq![cur0]);
                assert(parts0.map_values(|p: Vec<char>| p@) + (seq![cur0] + split_at_delim(
                    v@.skip(i as int + 1),
                    d,
                )) =~= parts@.map_values(|p: Vec<char>| p@) + split_at_delim(
                    v@.skip(i as int + 1),
                    d,
                ));
                assert(cur@ + v@.skip(i as int + 1) =~= v@.skip(i as int + 1));
            }
        } else {
            let ghost cur0 = cur@;
            cur.push(c);
            proof {
                assert(cur0 + v@.skip(i as int) =~= cur@ + v@.skip(i as int + 1));
            }
        }
        i = i + 1;
    }
    proof {
        assert(v@.skip(v@.len() as int) =~= Seq::<char>::empty());
        assert(cur@ + v@.skip(v@.len() as int) =~= cur@);
        lemma_split_clean(cur@, d);
        assert((parts@ + seq![cur]).map_values(|p: Vec<char>| p@) =~= parts@.map_values(
            |p: Vec<char>| p@,
        ) + seq![cur@]);
    }
    parts.push(cur);
    parts
}

/// Why a record was not appended.
#[derive(Clone, Copy, PartialEq, Eq, Structural, Debug)]
pub enum StoreError {
    /// A required field (`app_name` or `summary`) is empty; the record is
    /// dropped, not stored.
    Invalid,
    /// The file system failed; reported by the unverified shell that owns
    /// the file, never by the in-memory store itself.
    Io,
}

/// A record may be durably appended only with its required fields
/// non-empty.
pub open spec fn spec_valid_record(r: FieldsV) -> bool {
    r.app_name.len() > 0 && r.summary.len() > 0
}

/// The persisted line of a record: the five fields, sanitized, joined by
/// the delimiter.
pub open spec fn spec_line_of(r: FieldsV) -> Seq<char> {
    dec_of(r.timestamp) + seq![delim()] + sanitized(r.app_name) + seq![delim()] + sanitized(
        r.app_icon,
    ) + seq![delim()] + sanitized(r.summary) + seq![delim()] + sanitized(r.body)
}

/// What a log line means: five or more delimited fields whose first is a
/// well-formed timestamp; anything else is skipped by iteration.
pub open spec fn spec_parse_line(line: Seq<char>) -> Option<FieldsV> {
    let parts = split_at_delim(line, delim());
    if parts.len() < 5 {
        None
    } else {
        match parse_dec(parts[0]) {
            Some(ts) => Some(
                FieldsV {
                    timestamp: ts,
                    app_name: parts[1],
                    app_icon: parts[2],
                    summary: parts[3],
                    body: parts[4],
                },
            ),
            None => None,
        }
    }
}

/// The identity key of a log line: the timestamp before the first
/// delimiter. A line without a delimiter, or whose first field is not a
/// well-formed timestamp, has no key and is never deleted.
pub open spec fn spec_key_of(line: Seq<char>) -> Option<int> {
    let parts = split_at_delim(line, delim());
    if parts.len() >= 2 {
        parse_dec(parts[0])
    } else {
        None
    }
}

/// One parsed log line.
#[derive(Debug)]
pub struct LogEntry {
    pub timestamp: i64,
    pub app_name: String,
    pub app_icon: String,
    pub summary: String,
    pub body: String,
}

impl View for LogEntry {
    type V = FieldsV;

    open spec fn view(&self) -> FieldsV {
        FieldsV {
            timestamp: self.timestamp as int,
            app_name: self.app_name@,
            app_icon: self.app_icon@,
            summary: self.summary@,
            body: self.body@,
        }
    }
}

/// Parses one log line; `None` for a line with fewer than five fields or
/// a malformed timestamp.
pub fn parse_line(line: &str) -> (r: Option<LogEntry>)
    ensures
        r matches Some(e) ==> spec_parse_line(line@) == Some(e@),
        r is None ==> spec_parse_line(line@) is None,
{
    let chars = string_to_chars(line);
    let parts = split_chars(&chars, '`');
    proof {
        assert(parts@.map_values(|p: Vec<char>| p@).len() == parts@.len());
    }
    if parts.len() < 5 {
        return None;
    }
    proof {
        assert(forall|k: int|
            0 <= k < parts@.len() ==> split_at_delim(line@, delim())[k] == #[trigger] parts@[k]@);
    }
    let ts = match parse_i64(&parts[0]) {
        Some(t) => t,
        None => {
            return None;
        },
    };
    let e = LogEntry {
        timestamp: ts,
        app_name: chars_to_string(&parts[1]),
        app_icon: chars_to_string(&parts[2]),
        summary: chars_to_string(&parts[3]),
        body: chars_to_string(&parts[4]),
    };
    Some(e)
}

/// Renders the persisted line of a record: timestamp, then the four text
/// fields sanitized, delimiter-joined. `Err(StoreError::Invalid)` exactly
/// when a required field is empty.
pub fn render_line(rec: &NotificationRecord) -> (r: Result<String, StoreError>)
    ensures
        r is Ok <==> spec_valid_record(rec@),
        r matches Ok(line) ==> line@ == spec_line_of(rec@),
        r matches Err(e) ==> e == StoreError::Invalid,
{
    if rec.app_name.as_str().is_empty() || rec.summary.as_str().is_empty() {
        return Err(StoreError::Invalid);
    }
    let mut out = render_i64(rec.timestamp);
    out.push('`');
    let mut f = sanitize(&string_to_chars(rec.app_name.as_str()));
    out.append(&mut f);
    out.push('`');
    let mut f = sanitize(&string_to_chars(rec.app_icon.as_str()));
    out.append(&mut f);
    out.push('`');
    let mut f = sanitize(&string_to_chars(rec.summary.as_str()));
    out.append(&mut f);
    out.push('`');
    let mut f = sanitize(&string_to_chars(rec.body.as_str()));
    out.append(&mut f);
    proof {
        assert(out@ =~= spec_line_of(rec@));
    }
    Ok(chars_to_string(&out))
}

/// Entries recovered from a sequence of lines, in order, skipping lines
/// that do not parse.
pub open spec fn spec_iterate(lines: Seq<Seq<char>>) -> Seq<FieldsV>
    decreases lines.len(),
{
    if lines.len() == 0 {
        Seq::empty()
    } else {
        spec_iterate(lines.drop_last()) + match spec_parse_line(lines.last()) {
            Some(e) => seq![e],
            None => Seq::<FieldsV>::empty(),
        }
    }
}

/// The in-memory image of the log file: its lines, in file order. The
/// unverified shell loads it from disk and writes it back; every rule of
/// the store's mutation discipline is enforced here.
pub struct LogStore {
    lines: Vec<String>,
}

impl View for LogStore {
    type V = Seq<Seq<char>>;

    closed spec fn view(&self) -> Seq<Seq<char>> {
        self.lines@.map_values(|l: String| l@)
    }
}

impl LogStore {
    /// An empty store.
    pub fn new() -> (s: Self)
        ensures
            s@ == Seq::<Seq<char>>::empty(),
    {
        let s = LogStore { lines: Vec::new() };
        proof {
            assert(s@ =~= Seq::<Seq<char>>::empty());
        }
        s
    }

    /// The store holding exactly the given lines.
    pub fn from_lines(lines: Vec<String>) -> (s: Self)
        ensures
            s@ == lines@.map_values(|l: String| l@),
    {
        LogStore { lines }
    }

    /// The lines as persisted, in order.
    pub fn lines(&self) -> (r: &Vec<String>)
        ensures
            r@.map_values(|l: String| l@) == self@,
    {
        &self.lines
    }

    /// Appends one record as one line. Rejects a record whose `app_name`
    /// or `summary` is empty without changing the store; otherwise
    /// returns the appended line for the caller to persist.
    pub fn append(&mut self, rec: &NotificationRecord) -> (r: Result<String, StoreError>)
        ensures
            r is Ok <==> spec_valid_record(rec@),
            r matches Ok(line) ==> {
                &&& line@ == spec_line_of(rec@)
                &&& final(self)@ == old(self)@.push(spec_line_of(rec@))
            },
            r matches Err(e) ==> e == StoreError::Invalid && final(self)@ == old(self)@,
    {
        let line = match render_line(rec) {
            Ok(l) => l,
            Err(e) => {
                return Err(e);
            },
        };
        let line2 = line.clone();
        self.lines.push(line);
        proof {
            assert(self@ =~= old(self)@.push(spec_line_of(rec@)));
        }
        Ok(line2)
    }

    /// All entries the store's lines parse to, in file order.
    #[verifier::loop_isolation(false)]
    pub fn iterate(&self) -> (r: Vec<LogEntry>)
        ensures
            r@.map_values(|e: LogEntry| e@) == spec_iterate(self@),
    {
        let mut r: Vec<LogEntry> = Vec::new();
        let mut i: usize = 0;
        proof {
            assert(self@.take(0) =~= Seq::<Seq<char>>::empty());
            assert(r@.map_values(|e: LogEntry| e@) =~= spec_iterate(self@.take(0)));
        }
        while i < self.lines.len()
            invariant
                i <= self.lines@.len(),
                r@.map_values(|e: LogEntry| e@) == spec_iterate(self@.take(i as int)),
            decreases self.lines@.len() - i,
        {
            proof {
                assert(self@.take(i as int + 1).drop_last() =~= self@.take(i as int));
                assert(self@.take(i as int + 1).last() == self@[i as int]);
            }
            match parse_line(self.lines[i].as_str()) {
                Some(e) => {
                    r.push(e);
                    proof {
                        assert(r@.map_values(|e: LogEntry| e@) =~= spec_iterate(
                            self@.take(i as int + 1),
                        ));
                    }
                },
                None => {
                    proof {
                        assert(r@.map_values(|e: LogEntry| e@) =~= spec_iterate(
                            self@.take(i as int + 1),
                        ));
                    }
                },
            }
            i = i + 1;
        }
        proof {
            assert(self@.take(self.lines@.len() as int) =~= self@);
        }
        r
    }

    /// Removes every line whose identity key equals `ts`, keeping all
    /// others in their original order, byte for byte.
    #[verifier::loop_isolation(false)]
    pub fn delete_by_id(&mut self, ts: i64)
        ensures
            final(self)@ == old(self)@.filter(|l: Seq<char>| spec_key_of(l) != Some(ts as int)),
    {
        let mut kept: Vec<String> = Vec::new();
        let mut i: usize = 0;
        proof {
            reveal(Seq::filter);
            assert(old(self)@.take(0) =~= Seq::<Seq<char>>::empty());
            assert(kept@.map_values(|l: String| l@) =~= old(self)@.take(0).filter(
                |l: Seq<char>| spec_key_of(l) != Some(ts as int),
            ));
        }
        while i < self.lines.len()
            invariant
                i <= self.lines@.len(),
                self@ == old(self)@,
                kept@.map_values(|l: String| l@) == old(self)@.take(i as int).filter(
                    |l: Seq<char>| spec_key_of(l) != Some(ts as int),
                ),
            decreases self.lines@.len() - i,
        {
            let keep = match line_key(&self.lines[i]) {
                Some(k) => k != ts,
                None => true,
            };
            proof {
                reveal(Seq::filter);
                assert(old(self)@.take(i as int + 1).drop_last() =~= old(self)@.take(i as int));
                assert(old(self)@.take(i as int + 1).last() == old(self)@[i as int]);
            }
            if keep {
                let line = self.lines[i].clone();
                kept.push(line);
                proof {
                    assert(kept@.map_values(|l: String| l@) =~= old(self)@.take(i as int + 1)
                        .filter(|l: Seq<char>| spec_key_of(l) != Some(ts as int)));
                }
            } else {
                proof {
                    assert(kept@.map_values(|l: String| l@) =~= old(self)@.take(i as int + 1)
                        .filter(|l: Seq<char>| spec_key_of(l) != Some(ts as int)));
                }
            }
            i = i + 1;
        }
        self.lines = kept;
        proof {
            assert(old(self)@.take(old(self)@.len() as int) =~= old(self)@);
        }
    }
}

/// The identity key of a line, exactly as `spec_key_of` describes it.
pub fn line_key(line: &String) -> (r: Option<i64>)
    ensures
        r matches Some(x) ==> spec_key_of(line@) == Some(x as int),
        r is None ==> spec_key_of(line@) is None,
{
    let chars = string_to_chars(line.as_str());
    let parts = split_chars(&chars, '`');
    proof {
        assert(parts@.map_values(|p: Vec<char>| p@).len() == parts@.len());
    }
    if parts.len() < 2 {
        return None;
    }
    proof {
        assert(split_at_delim(line@, delim())[0] == parts@[0]@);
    }
    parse_i64(&parts[0])
}

/// Every element a filter keeps satisfies its predicate, so a sequence
/// whose elements all satisfy the predicate filters to itself.
pub proof fn lemma_filter_all_true<A>(s: Seq<A>, p: spec_fn(A) -> bool)
    requires
        forall|i: int| 0 <= i < s.len() ==> p(#[trigger] s[i]),
    ensures
        s.filter(p) == s,
    decreases s.len(),
{
    reveal(Seq::filter);
    if s.len() == 0 {
        assert(s.filter(p) =~= s);
    } else {
        assert(forall|i: int| 0 <= i < s.drop_last().len() ==> p(#[trigger] s.drop_last()[i]));
        lemma_filter_all_true(s.drop_last(), p);
        assert(p(s.last()));
        assert(s.filter(p) =~= s.drop_last().push(s.last()));
        assert(s.drop_last().push(s.last()) =~= s);
    }
}

/// Deleting an identity no line carries leaves every line in place.
pub proof fn lemma_delete_absent(lines: Seq<Seq<char>>, ts: int)
    requires
        forall|i: int| 0 <= i < lines.len() ==> spec_key_of(#[trigger] lines[i]) != Some(ts),
    ensures
        lines.filter(|l: Seq<char>| spec_key_of(l) != Some(ts)) == lines,
{
    lemma_filter_all_true(lines, |l: Seq<char>| spec_key_of(l) != Some(ts));
}

/// Deleting the same identity twice ends in the same state as deleting it
/// once.
pub proof fn lemma_delete_idempotent(lines: Seq<Seq<char>>, ts: int)
    ensures
        lines.filter(|l: Seq<char>| spec_key_of(l) != Some(ts)).filter(
            |l: Seq<char>| spec_key_of(l) != Some(ts),
        ) == lines.filter(|l: Seq<char>| spec_key_of(l) != Some(ts)),
{
    let p = |l: Seq<char>| spec_key_of(l) != Some(ts);
    let once = lines.filter(p);
    assert forall|i: int| 0 <= i < once.len() implies p(#[trigger] once[i]) by {
        lines.lemma_filter_pred(p, i);
    }
    lemma_filter_all_true(once, p);
}

/// Appending a valid record and parsing the line back recovers the record:
/// the same timestamp and the four text fields sanitized.
pub proof fn lemma_append_parse_round_trip(r: FieldsV)
    requires
        spec_valid_record(r),
        i64::MIN <= r.timestamp <= i64::MAX,
    ensures
        spec_parse_line(spec_line_of(r)) == Some(
            FieldsV {
                timestamp: r.timestamp,
                app_name: sanitized(r.app_name),
                app_icon: sanitized(r.app_icon),
                summary: sanitized(r.summary),
                body: sanitized(r.body),
            },
        ),
{
    let d = delim();
    let a0 = dec_of(r.timestamp);
    let a1 = sanitized(r.app_name);
    let a2 = sanitized(r.app_icon);
    let a3 = sanitized(r.summary);
    let a4 = sanitized(r.body);
    lemma_dec_of_chars(r.timestamp);
    assert(forall|i: int| 0 <= i < a0.len() ==> #[trigger] a0[i] != d) by {
        assert(forall|i: int|
            0 <= i < a0.len() ==> is_digit(#[trigger] a0[i]) || a0[i] == '-');
    }
    lemma_sanitized_clean(r.app_name);
    lemma_sanitized_clean(r.app_icon);
    lemma_sanitized_clean(r.summary);
    lemma_sanitized_clean(r.body);
    let line = spec_line_of(r);
    assert(line =~= a0 + seq![d] + (a1 + seq![d] + (a2 + seq![d] + (a3 + seq![d] + a4))));
    lemma_split_concat(a0, a1 + seq![d] + (a2 + seq![d] + (a3 + seq![d] + a4)), d);
    lemma_split_concat(a1, a2 + seq![d] + (a3 + seq![d] + a4), d);
    lemma_split_concat(a2, a3 + seq![d] + a4, d);
    lemma_split_concat(a3, a4, d);
    lemma_split_clean(a4, d);
    let parts = split_at_delim(line, d);
    assert(parts =~= seq![a0, a1, a2, a3, a4]);
    lemma_parse_of_render(r.timestamp);
    assert(parse_dec(parts[0]) == Some(r.timestamp));
}

} // verus!
