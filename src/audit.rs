//! Audit records of permission checks and privileged operations, the daily
//! log-file naming, retention, date-range selection and CSV rendering.
use vstd::prelude::*;
use crate::text::{joined, owned, string_views};

verus! {

/// One audit record.
#[derive(Debug, Clone)]
pub struct AuditLogEntry {
    /// RFC 3339 time of the record, UTC.
    pub timestamp: String,
    pub plugin_id: String,
    pub permission_type: String,
    pub resource: String,
    /// What was done: `request`, `grant`, `revoke`, `validate`, `read`, `GET request`, ...
    pub action: String,
    pub result: bool,
    pub error_message: Option<String>,
}

impl AuditLogEntry {
    /// A record made of the given parts.
    pub fn new(
        timestamp: String,
        plugin_id: &str,
        permission_type: &str,
        resource: &str,
        action: &str,
        result: bool,
        error: Option<&str>,
    ) -> (r: Self)
        ensures
            r.timestamp == timestamp,
            r.plugin_id@ == plugin_id@,
            r.permission_type@ == permission_type@,
            r.resource@ == resource@,
            r.action@ == action@,
            r.result == result,
            r.error_message is Some <==> error is Some,
            error matches Some(e) ==> r.error_message->0@ == e@,
    {
        AuditLogEntry {
            timestamp,
            plugin_id: owned(plugin_id),
            permission_type: owned(permission_type),
            resource: owned(resource),
            action: owned(action),
            result,
            error_message: match error {
                Some(e) => Some(owned(e)),
                None => None,
            },
        }
    }
}

/// `a` sorts strictly before `b`, comparing characters by code point.
pub open spec fn lex_lt(a: Seq<char>, b: Seq<char>) -> bool
    decreases a.len(),
{
    if a.len() == 0 {
        b.len() > 0
    } else if b.len() == 0 {
        false
    } else if a[0] != b[0] {
        a[0] < b[0]
    } else {
        lex_lt(a.drop_first(), b.drop_first())
    }
}

/// Whether `a` sorts strictly before `b`.
pub fn str_lt(a: &str, b: &str) -> (r: bool)
    ensures
        r == lex_lt(a@, b@),
{
    let n = a.unicode_len();
    let m = b.unicode_len();
    let mut i: usize = 0;
    assert(a@.subrange(0, n as int) =~= a@);
    assert(b@.subrange(0, m as int) =~= b@);
    while i < n && i < m
        invariant
            n == a@.len(),
            m == b@.len(),
            0 <= i <= n,
            i <= m,
            lex_lt(a@, b@) == lex_lt(a@.subrange(i as int, n as int), b@.subrange(i as int, m as int)),
        decreases n - i,
    {
        let x = a.get_char(i);
        let y = b.get_char(i);
        proof {
            let sa = a@.subrange(i as int, n as int);
            let sb = b@.subrange(i as int, m as int);
            assert(sa.drop_first() =~= a@.subrange(i + 1, n as int));
            assert(sb.drop_first() =~= b@.subrange(i + 1, m as int));
            assert(sa[0] == x);
            assert(sb[0] == y);
        }
        if x != y {
            return x < y;
        }
        i = i + 1;
    }
    proof {
        let sa = a@.subrange(i as int, n as int);
        let sb = b@.subrange(i as int, m as int);
        assert(sa.len() == 0 || sb.len() == 0);
    }
    i == n && i < m
}

/// The day a record is logged under: the `YYYY-MM-DD` that begins its RFC 3339
/// timestamp, when the timestamp is that long.
pub fn entry_log_day(entry: &AuditLogEntry) -> (r: Option<String>)
    ensures
        r is Some <==> entry.timestamp@.len() >= 10,
        r matches Some(d) ==> d@ == entry.timestamp@.subrange(0, 10),
{
    let ts = entry.timestamp.as_str();
    if ts.unicode_len() >= 10 {
        Some(owned(ts.substring_char(0, 10)))
    } else {
        None
    }
}

/// The name of the log file of a day: `YYYY-MM-DD.jsonl`.
pub fn log_file_name(date: &str) -> (r: String)
    ensures
        r@ == date@ + ".jsonl"@,
{
    joined(date, ".jsonl")
}

/// A log of the day `stem` is kept by rotation with cutoff day `cutoff` unless it sorts
/// before the cutoff.
pub open spec fn retained(stem: Seq<char>, cutoff: Seq<char>) -> bool {
    !lex_lt(stem, cutoff)
}

/// Whether rotation with cutoff day `cutoff` deletes the log of day `stem`.
pub open spec fn expired(cutoff: Seq<char>) -> spec_fn(Seq<char>) -> bool {
    |stem: Seq<char>| !retained(stem, cutoff)
}

/// The logs among `stems` that rotation with cutoff day `cutoff` deletes: those whose
/// day sorts before it, in the given order.
pub fn expired_logs(stems: &Vec<String>, cutoff: &str) -> (r: Vec<String>)
    ensures
        string_views(r@) == string_views(stems@).filter(expired(cutoff@)),
{
    let mut r: Vec<String> = Vec::new();
    let mut i: usize = 0;
    let ghost pred = expired(cutoff@);
    assert(string_views(r@) =~= string_views(stems@).subrange(0, 0).filter(pred));
    while i < stems.len()
        invariant
            0 <= i <= stems@.len(),
            pred == expired(cutoff@),
            string_views(r@) == string_views(stems@).subrange(0, i as int).filter(pred),
        decreases stems@.len() - i,
    {
        let ghost sv = string_views(stems@);
        proof {
            assert(sv.subrange(0, i + 1) =~= sv.subrange(0, i as int).push(sv[i as int]));
            sv.subrange(0, i as int).lemma_filter_push(sv[i as int], pred);
        }
        if str_lt(stems[i].as_str(), cutoff) {
            let ghost before = r@;
            r.push(owned(stems[i].as_str()));
            assert(string_views(r@) =~= string_views(before).push(sv[i as int]));
        }
        i = i + 1;
    }
    assert(string_views(stems@).subrange(0, stems@.len() as int) =~= string_views(stems@));
    r
}

/// Rotation deletes exactly the logs dated before the cutoff and keeps the rest: a log
/// of `stems` is among the deleted ones if and only if its day sorts before `cutoff`.
pub proof fn lemma_rotation_partition(stems: Seq<Seq<char>>, cutoff: Seq<char>, stem: Seq<char>)
    requires
        stems.contains(stem),
    ensures
        stems.filter(expired(cutoff)).contains(stem) <==> lex_lt(stem, cutoff),
{
    let pred = expired(cutoff);
    let i = choose|i: int| 0 <= i < stems.len() && stems[i] == stem;
    if lex_lt(stem, cutoff) {
        stems.lemma_filter_contains(pred, i);
    }
    if stems.filter(pred).contains(stem) {
        let j = choose|j: int| 0 <= j < stems.filter(pred).len() && stems.filter(pred)[j] == stem;
        stems.lemma_filter_pred(pred, j);
    }
}

/// Whether a log of the day `stem` falls in the inclusive range of days `from` to `to`,
/// either end open when absent.
pub fn in_date_range(stem: &str, from_date: Option<&str>, to_date: Option<&str>) -> (r: bool)
    ensures
        r == ((match from_date {
            Some(f) => !lex_lt(stem@, f@),
            None => true,
        }) && (match to_date {
            Some(t) => !lex_lt(t@, stem@),
            None => true,
        })),
{
    let after_from = match from_date {
        Some(f) => !str_lt(stem, f),
        None => true,
    };
    let before_to = match to_date {
        Some(t) => !str_lt(t, stem),
        None => true,
    };
    after_from && before_to
}

/// The header line of the CSV export.
pub fn csv_header() -> (r: &'static str)
    ensures
        r@ == "Timestamp,Plugin ID,Permission Type,Resource,Action,Result,Error Message"@,
{
    "Timestamp,Plugin ID,Permission Type,Resource,Action,Result,Error Message"
}

/// The CSV line of one record: seven unquoted fields; a missing error message is an
/// empty field.
pub open spec fn csv_line(e: AuditLogEntry) -> Seq<char> {
    e.timestamp@ + ","@ + e.plugin_id@ + ","@ + e.permission_type@ + ","@ + e.resource@ + ","@
        + e.action@ + ","@ + (if e.result { "true"@ } else { "false"@ }) + ","@ + match e.error_message {
        Some(m) => m@,
        None => Seq::empty(),
    }
}

/// The CSV line of `entry`.
pub fn csv_row(entry: &AuditLogEntry) -> (r: String)
    ensures
        r@ == csv_line(*entry),
{
    let mut r = joined(entry.timestamp.as_str(), ",");
    r.append(entry.plugin_id.as_str());
    r.append(",");
    r.append(entry.permission_type.as_str());
    r.append(",");
    r.append(entry.resource.as_str());
    r.append(",");
    r.append(entry.action.as_str());
    r.append(",");
    if entry.result {
        r.append("true");
    } else {
        r.append("false");
    }
    r.append(",");
    match &entry.error_message {
        Some(m) => r.append(m.as_str()),
        None => {
            proof {
                reveal_strlit("");
            }
            r.append("");
        },
    }
    proof {
        let e = *entry;
        assert(r@ =~= csv_line(e));
    }
    r
}

proof fn lemma_lex_trans(a: Seq<char>, b: Seq<char>, c: Seq<char>)
    requires
        lex_lt(a, b),
        lex_lt(b, c),
    ensures
        lex_lt(a, c),
    decreases a.len(),
{
    if a.len() > 0 && b.len() > 0 && c.len() > 0 && a[0] == b[0] && b[0] == c[0] {
        lemma_lex_trans(a.drop_first(), b.drop_first(), c.drop_first());
    }
}

proof fn lemma_lex_asym(a: Seq<char>, b: Seq<char>)
    requires
        lex_lt(a, b),
    ensures
        !lex_lt(b, a),
    decreases a.len(),
{
    if a.len() > 0 && b.len() > 0 && a[0] == b[0] {
        lemma_lex_asym(a.drop_first(), b.drop_first());
    }
}

proof fn lemma_lex_total(a: Seq<char>, b: Seq<char>)
    requires
        !lex_lt(a, b),
        !lex_lt(b, a),
    ensures
        a == b,
    decreases a.len(),
{
    if a.len() > 0 && b.len() > 0 {
        if a[0] == b[0] {
            lemma_lex_total(a.drop_first(), b.drop_first());
            assert(a =~= seq![a[0]] + a.drop_first());
            assert(b =~= seq![b[0]] + b.drop_first());
        }
    } else {
        assert(a.len() == 0 && b.len() == 0);
        assert(a =~= b);
    }
}

/// Records ordered by timestamp, most recent first.
pub open spec fn newest_first(s: Seq<AuditLogEntry>) -> bool {
    forall|i: int, j: int| 0 <= i < j < s.len() ==> !lex_lt(#[trigger] s[i].timestamp@, #[trigger] s[j].timestamp@)
}

/// The records ordered by timestamp, most recent first.
pub fn sort_newest_first(entries: Vec<AuditLogEntry>) -> (r: Vec<AuditLogEntry>)
    ensures
        newest_first(r@),
        r@.to_multiset() == entries@.to_multiset(),
{
    broadcast use vstd::seq_lib::group_to_multiset_ensures;
    let mut rest = entries;
    let mut r: Vec<AuditLogEntry> = Vec::new();
    while rest.len() > 0
        invariant
            newest_first(r@),
            r@.to_multiset().add(rest@.to_multiset()) == entries@.to_multiset(),
        decreases rest@.len(),
    {
        let ghost before_rest = rest@;
        let x = match rest.pop() {
            Some(x) => x,
            None => {
                return r;
            },
        };
        proof {
            assert(before_rest =~= rest@.push(x));
        }
        let mut p: usize = 0;
        while p < r.len() && !str_lt(r[p].timestamp.as_str(), x.timestamp.as_str())
            invariant
                0 <= p <= r@.len(),
                before_rest == rest@.push(x),
                newest_first(r@),
                r@.to_multiset().add(before_rest.to_multiset()) == entries@.to_multiset(),
                forall|i: int| 0 <= i < p ==> !lex_lt(#[trigger] r@[i].timestamp@, x.timestamp@),
            decreases r@.len() - p,
        {
            p = p + 1;
        }
        let ghost before = r@;
        r.insert(p, x);
        proof {
            vstd::seq_lib::to_multiset_insert(before, p as int, x);
            vstd::seq_lib::to_multiset_build(rest@, x);
            assert(rest@.push(x).to_multiset() =~= rest@.to_multiset().insert(x));
            assert(before_rest.to_multiset() == rest@.to_multiset().insert(x));
            assert(r@.to_multiset() == before.to_multiset().insert(x));
            assert(r@.to_multiset().add(rest@.to_multiset()) =~= before.to_multiset().add(before_rest.to_multiset()));
            assert forall|i: int, j: int| 0 <= i < j < r@.len() implies !lex_lt(#[trigger] r@[i].timestamp@, #[trigger] r@[j].timestamp@) by {
                if j < p {
                    assert(r@[i] == before[i] && r@[j] == before[j]);
                } else if j == p {
                    assert(r@[i] == before[i]);
                } else if i == p {
                    let bj = before[j - 1];
                    assert(r@[j] == bj);
                    assert(lex_lt(before[p as int].timestamp@, x.timestamp@));
                    if p < j - 1 {
                        if !lex_lt(bj.timestamp@, before[p as int].timestamp@) {
                            lemma_lex_total(bj.timestamp@, before[p as int].timestamp@);
                        } else {
                            lemma_lex_trans(bj.timestamp@, before[p as int].timestamp@, x.timestamp@);
                        }
                    }
                    lemma_lex_asym(bj.timestamp@, x.timestamp@);
                } else if i < p {
                    assert(r@[i] == before[i] && r@[j] == before[j - 1]);
                } else {
                    assert(r@[i] == before[i - 1] && r@[j] == before[j - 1]);
                }
            }
        }
    }
    r
}

/// Where the daily audit logs live.
pub struct AuditLogger {
    log_dir: String,
}

impl AuditLogger {
    pub closed spec fn dir(&self) -> Seq<char> {
        self.log_dir@
    }

    /// The logger of the application data directory `app_data_dir`: its logs go to
    /// `<app_data_dir>/audit-logs`.
    pub fn new(app_data_dir: String) -> (r: Self)
        ensures
            r.dir() == app_data_dir@ + "/audit-logs"@,
    {
        AuditLogger { log_dir: joined(app_data_dir.as_str(), "/audit-logs") }
    }

    /// The log directory.
    pub fn log_dir(&self) -> (r: &String)
        ensures
            r@ == self.dir(),
    {
        &self.log_dir
    }

    /// The path of the log file of day `date`.
    pub fn log_file_path(&self, date: &str) -> (r: String)
        ensures
            r@ == self.dir() + "/"@ + date@ + ".jsonl"@,
    {
        let name = log_file_name(date);
        let r = joined(joined(self.log_dir.as_str(), "/").as_str(), name.as_str());
        assert(r@ =~= self.dir() + "/"@ + date@ + ".jsonl"@);
        r
    }
}

} // verus!
