//! The rover's mailbox: operations kept one JSON record per line, claimed
//! in order and finished by id, and the times written in them.
use vstd::prelude::*;
use crate::json::{Json, JsonValue, JsonNumber, NumberView, ref_view};
use crate::text::{str_equal, str_is_blank, is_blank, push_char, pop_char, line_text, split_lines, text_lines};

verus! {

broadcast use vstd::string::group_string_axioms;

/// An instant: whole seconds since 1970-01-01T00:00:00Z and the nanoseconds
/// after them.
#[derive(Clone, Copy, Debug, PartialEq, Eq, Structural)]
pub struct Timestamp {
    pub secs: i64,
    pub nanos: u32,
}

/// The instant that `chrono` reads from an RFC 3339 text
/// (`DateTime::parse_from_rfc3339`), or `None` where it refuses the text.
pub uninterp spec fn rfc3339_time(text: Seq<char>) -> Option<Timestamp>;

/// Whether `chrono` can represent the instant `secs` seconds after the epoch
/// (`DateTime::<Utc>::from_timestamp(secs, 0)` is `Some`): from the start of
/// January 1, 262144 BCE to the end of December 31, 262142 CE, its
/// `NaiveDate::MIN` and `NaiveDate::MAX`.
pub open spec fn utc_seconds_in_range(secs: i64) -> bool {
    -8_334_601_228_800 <= secs <= 8_210_266_876_799
}

/// Calls `DateTime::parse_from_rfc3339`. Trusted: the result is the named
/// instant, read by `timestamp` and `timestamp_subsec_nanos`.
#[verifier::external_body]
fn parse_rfc3339(text: &str) -> (r: Option<Timestamp>)
    ensures
        r == rfc3339_time(text@),
{
    chrono::DateTime::parse_from_rfc3339(text).ok().map(
        |dt| Timestamp { secs: dt.timestamp(), nanos: dt.timestamp_subsec_nanos() },
    )
}

/// Calls `DateTime::<Utc>::from_timestamp(secs, 0)`. Trusted: it succeeds
/// exactly when the named range check holds, and (as its documentation
/// says it round-trips with `timestamp`) gives back `secs` with no
/// nanoseconds.
#[verifier::external_body]
fn utc_from_secs(secs: i64) -> (r: Option<Timestamp>)
    ensures
        r is Some <==> utc_seconds_in_range(secs),
        r matches Some(t) ==> t == (Timestamp { secs, nanos: 0 }),
{
    chrono::DateTime::<chrono::Utc>::from_timestamp(secs, 0).map(
        |dt| Timestamp { secs: dt.timestamp(), nanos: dt.timestamp_subsec_nanos() },
    )
}

/// One queued, running or finished operation.
#[derive(Debug)]
pub struct Operation {
    pub id: String,
    pub title: String,
    pub pilot_cmd: String,
    pub status: String,
    pub created_at: Timestamp,
    pub finished_at: Option<Timestamp>,
}

pub struct OperationView {
    pub id: Seq<char>,
    pub title: Seq<char>,
    pub pilot_cmd: Seq<char>,
    pub status: Seq<char>,
    pub created_at: Timestamp,
    pub finished_at: Option<Timestamp>,
}

impl View for Operation {
    type V = OperationView;

    open spec fn view(&self) -> OperationView {
        OperationView {
            id: self.id@,
            title: self.title@,
            pilot_cmd: self.pilot_cmd@,
            status: self.status@,
            created_at: self.created_at,
            finished_at: self.finished_at,
        }
    }
}

pub open spec fn ops_view(ops: Seq<Operation>) -> Seq<OperationView> {
    ops.map_values(|o: Operation| o@)
}

impl Operation {
    /// A copy of the operation.
    pub fn duplicate(&self) -> (r: Operation)
        ensures
            r@ == self@,
    {
        Operation {
            id: self.id.clone(),
            title: self.title.clone(),
            pilot_cmd: self.pilot_cmd.clone(),
            status: self.status.clone(),
            created_at: self.created_at,
            finished_at: self.finished_at,
        }
    }
}

// ---------------------------------------------------------------------------
// Operation ids used as directory names.
// ---------------------------------------------------------------------------

/// An id names exactly one ordinary path component (by Unix path rules): it
/// is not empty, not `.` or `..`, and holds no `/`.
pub open spec fn safe_component(id: Seq<char>) -> bool {
    &&& id.len() > 0
    &&& id != "."@
    &&& id != ".."@
    &&& forall|i: int| 0 <= i < id.len() ==> #[trigger] id[i] != '/'
}

/// Whether `id` can be used as the name of a working directory.
pub fn is_safe_path_component(id: &str) -> (r: bool)
    ensures
        r == safe_component(id@),
{
    if str_equal(id, "") || str_equal(id, ".") || str_equal(id, "..") {
        proof {
            reveal_strlit("");
        }
        return false;
    }
    proof {
        reveal_strlit("");
        assert(id@.len() > 0) by {
            if id@.len() == 0 {
                assert(id@ =~= ""@);
            }
        }
    }
    let n = id.unicode_len();
    let mut i: usize = 0;
    while i < n
        invariant
            n == id@.len(),
            i <= n,
            forall|j: int| 0 <= j < i ==> #[trigger] id@[j] != '/',
        decreases n - i,
    {
        if id.get_char(i) == '/' {
            return false;
        }
        i = i + 1;
    }
    true
}

/// Why a mailbox step was refused.
#[derive(Debug, PartialEq, Eq)]
pub enum MailboxError {
    /// An operation id that is not a single path component.
    UnsafeOpId(String),
}

impl MailboxError {
    pub open spec fn text(self) -> Seq<char> {
        match self {
            MailboxError::UnsafeOpId(id) => "unsafe op id: "@ + id@,
        }
    }

    /// The message shown for the error.
    pub fn message(&self) -> (r: String)
        ensures
            r@ == self.text(),
    {
        match self {
            MailboxError::UnsafeOpId(id) => {
                let mut s = String::from_str("unsafe op id: ");
                s.append(id.as_str());
                s
            },
        }
    }
}

/// Accepts an id that is a single path component, else refuses it.
pub fn ensure_safe_path_component(id: &str) -> (r: Result<(), MailboxError>)
    ensures
        match r {
            Ok(()) => safe_component(id@),
            Err(MailboxError::UnsafeOpId(s)) => !safe_component(id@) && s@ == id@,
        },
{
    if is_safe_path_component(id) {
        Ok(())
    } else {
        Err(MailboxError::UnsafeOpId(String::from_str(id)))
    }
}

/// The path of the lock file that guards the mailbox at `path`.
pub fn mailbox_lock_path(path: &str) -> (r: String)
    ensures
        r@ == path@ + ".lock"@,
{
    let mut s = String::from_str(path);
    s.append(".lock");
    s
}

// ---------------------------------------------------------------------------
// Claiming and finishing operations.
// ---------------------------------------------------------------------------

/// `i` is the first operation whose status is `queued`.
pub open spec fn is_first_queued(ops: Seq<OperationView>, i: int) -> bool {
    &&& 0 <= i < ops.len()
    &&& ops[i].status == "queued"@
    &&& forall|j: int| 0 <= j < i ==> #[trigger] ops[j].status != "queued"@
}

pub open spec fn has_queued(ops: Seq<OperationView>) -> bool {
    exists|i: int| 0 <= i < ops.len() && #[trigger] ops[i].status == "queued"@
}

/// The operation `op` with status `running`.
pub open spec fn running(op: OperationView) -> OperationView {
    OperationView { status: "running"@, ..op }
}

/// Claims the first queued operation: it becomes `running` and a copy is
/// returned. Nothing changes where no operation is queued, or where the
/// first queued one has an id that is not a single path component.
pub fn claim_next_op(ops: &mut Vec<Operation>) -> (r: Result<Option<Operation>, MailboxError>)
    ensures
        match r {
            Ok(None) => !has_queued(ops_view(old(ops)@)) && final(ops)@ == old(ops)@,
            Ok(Some(op)) => exists|i: int|
                {
                    &&& #[trigger] is_first_queued(ops_view(old(ops)@), i)
                    &&& safe_component(ops_view(old(ops)@)[i].id)
                    &&& op@ == running(ops_view(old(ops)@)[i])
                    &&& ops_view(final(ops)@) == ops_view(old(ops)@).update(i, op@)
                },
            Err(MailboxError::UnsafeOpId(id)) => exists|i: int|
                {
                    &&& #[trigger] is_first_queued(ops_view(old(ops)@), i)
                    &&& !safe_component(ops_view(old(ops)@)[i].id)
                    &&& id@ == ops_view(old(ops)@)[i].id
                    &&& final(ops)@ == old(ops)@
                },
        },
        ops_view(final(ops)@).len() == ops_view(old(ops)@).len(),
        forall|j: int|
            0 <= j < ops_view(old(ops)@).len() && ops_view(old(ops)@)[j].status != "queued"@
                ==> #[trigger] ops_view(final(ops)@)[j] == ops_view(old(ops)@)[j],
        r matches Ok(None) ==> forall|j: int|
            0 <= j < ops_view(old(ops)@).len() ==> #[trigger] ops_view(old(ops)@)[j].status
                != "queued"@,
        r matches Ok(Some(op)) ==> exists|i: int|
            {
                &&& 0 <= i < ops_view(old(ops)@).len()
                &&& #[trigger] ops_view(old(ops)@)[i].status == "queued"@
                &&& forall|j: int| 0 <= j < i ==> #[trigger] ops_view(old(ops)@)[j].status != "queued"@
                &&& ops_view(final(ops)@)[i].status == "running"@
                &&& ops_view(final(ops)@)[i].id == ops_view(old(ops)@)[i].id
                &&& op@ == ops_view(final(ops)@)[i]
                &&& forall|j: int|
                    0 <= j < ops_view(old(ops)@).len() && j != i ==> #[trigger] ops_view(final(ops)@)[j]
                        == ops_view(old(ops)@)[j]
            },
{
    let ghost v = ops_view(ops@);
    let mut i: usize = 0;
    while i < ops.len()
        invariant
            i <= ops.len(),
            v == ops_view(ops@),
            ops@ == old(ops)@,
            forall|j: int| 0 <= j < i ==> #[trigger] v[j].status != "queued"@,
        decreases ops.len() - i,
    {
        if str_equal(ops[i].status.as_str(), "queued") {
            assert(is_first_queued(v, i as int));
            if !is_safe_path_component(ops[i].id.as_str()) {
                return Err(MailboxError::UnsafeOpId(ops[i].id.clone()));
            }
            let mut claimed = ops[i].duplicate();
            claimed.status = String::from_str("running");
            let stored = claimed.duplicate();
            ops.set(i, stored);
            assert(ops_view(ops@) =~= v.update(i as int, claimed@));
            assert(ops_view(ops@)[i as int].status == "running"@);
            return Ok(Some(claimed));
        }
        i = i + 1;
    }
    assert(!has_queued(v));
    Ok(None)
}

/// The operation a claim takes is queued, and it is the first queued one:
/// an operation with any other status is never taken.
pub proof fn lemma_claim_takes_queued(ops: Seq<OperationView>, i: int)
    requires
        is_first_queued(ops, i),
    ensures
        ops[i].status == "queued"@,
        forall|j: int| 0 <= j < i ==> #[trigger] ops[j].status != "queued"@,
        running(ops[i]).status == "running"@,
        running(ops[i]).id == ops[i].id,
        running(ops[i]).finished_at == ops[i].finished_at,
{
}

/// There is something to claim exactly when some operation is queued.
pub proof fn lemma_has_queued_exactly(ops: Seq<OperationView>)
    ensures
        has_queued(ops) <==> exists|i: int| 0 <= i < ops.len() && #[trigger] ops[i].status == "queued"@,
{
}

/// After a claim of the operation at `i`, the first queued operation, if
/// any, stands after `i`: an operation is claimed at most once.
pub proof fn lemma_claim_exactly_once(
    ops: Seq<OperationView>,
    i: int,
    claimed: OperationView,
    j: int,
)
    requires
        is_first_queued(ops, i),
        claimed == running(ops[i]),
        is_first_queued(ops.update(i, claimed), j),
    ensures
        j > i,
{
    reveal_strlit("queued");
    reveal_strlit("running");
    if j <= i {
        if j < i {
            assert(ops.update(i, claimed)[j] == ops[j]);
        } else {
            assert(ops.update(i, claimed)[j].status == "running"@);
            assert("running"@[0] != "queued"@[0]);
        }
    }
}

/// `i` is the first operation with id `id`.
pub open spec fn is_first_with_id(ops: Seq<OperationView>, id: Seq<char>, i: int) -> bool {
    &&& 0 <= i < ops.len()
    &&& ops[i].id == id
    &&& forall|j: int| 0 <= j < i ==> #[trigger] ops[j].id != id
}

pub open spec fn has_id(ops: Seq<OperationView>, id: Seq<char>) -> bool {
    exists|i: int| 0 <= i < ops.len() && #[trigger] ops[i].id == id
}

/// The operation `op` finished with `status` at `finished_at`.
pub open spec fn finished(op: OperationView, status: Seq<char>, finished_at: Option<Timestamp>) -> OperationView {
    OperationView { status, finished_at, ..op }
}

/// Finishing records the status and the finishing time it is given, whatever
/// they are, and keeps the rest of the operation.
pub proof fn lemma_finished_records_outcome(op: OperationView, status: Seq<char>, finished_at: Option<Timestamp>)
    ensures
        finished(op, status, finished_at).status == status,
        finished(op, status, finished_at).finished_at == finished_at,
        finished(op, status, finished_at).id == op.id,
        finished(op, status, finished_at).title == op.title,
        finished(op, status, finished_at).pilot_cmd == op.pilot_cmd,
        finished(op, status, finished_at).created_at == op.created_at,
{
}

/// Operations appended to the mailbox after an operation was claimed are
/// kept as they are when that operation is finished.
pub proof fn lemma_finalize_preserves_appends(
    ops: Seq<OperationView>,
    appended: Seq<OperationView>,
    id: Seq<char>,
    i: int,
    status: Seq<char>,
    finished_at: Option<Timestamp>,
)
    requires
        is_first_with_id(ops, id, i),
    ensures
        is_first_with_id(ops + appended, id, i),
        (ops + appended).update(i, finished((ops + appended)[i], status, finished_at)) == ops.update(
            i,
            finished(ops[i], status, finished_at),
        ) + appended,
{
    let all = ops + appended;
    assert forall|j: int| 0 <= j < i implies #[trigger] all[j].id != id by {
        assert(all[j] == ops[j]);
    }
    assert(all.update(i, finished(all[i], status, finished_at)) =~= ops.update(
        i,
        finished(ops[i], status, finished_at),
    ) + appended);
}

/// Records the outcome of the first operation with id `op_id`; false, and
/// nothing changed, where there is none.
pub fn finalize_op(ops: &mut Vec<Operation>, op_id: &str, status: &str, finished_at: Option<Timestamp>) -> (r: bool)
    ensures
        r == has_id(ops_view(old(ops)@), op_id@),
        !r ==> final(ops)@ == old(ops)@,
        r ==> exists|i: int|
            {
                &&& #[trigger] is_first_with_id(ops_view(old(ops)@), op_id@, i)
                &&& ops_view(final(ops)@) == ops_view(old(ops)@).update(
                    i,
                    finished(ops_view(old(ops)@)[i], status@, finished_at),
                )
            },
        ops_view(final(ops)@).len() == ops_view(old(ops)@).len(),
        r ==> exists|i: int|
            {
                &&& 0 <= i < ops_view(old(ops)@).len()
                &&& #[trigger] ops_view(old(ops)@)[i].id == op_id@
                &&& ops_view(final(ops)@)[i].status == status@
                &&& ops_view(final(ops)@)[i].finished_at == finished_at
                &&& ops_view(final(ops)@)[i].id == op_id@
                &&& ops_view(final(ops)@)[i].created_at == ops_view(old(ops)@)[i].created_at
                &&& forall|j: int|
                    0 <= j < ops_view(old(ops)@).len() && j != i ==> #[trigger] ops_view(final(ops)@)[j]
                        == ops_view(old(ops)@)[j]
            },
{
    let ghost v = ops_view(ops@);
    let mut i: usize = 0;
    while i < ops.len()
        invariant
            i <= ops.len(),
            v == ops_view(ops@),
            ops@ == old(ops)@,
            forall|j: int| 0 <= j < i ==> #[trigger] v[j].id != op_id@,
        decreases ops.len() - i,
    {
        if str_equal(ops[i].id.as_str(), op_id) {
            assert(is_first_with_id(v, op_id@, i as int));
            let mut op = ops[i].duplicate();
            op.status = String::from_str(status);
            op.finished_at = finished_at;
            ops.set(i, op);
            assert(ops_view(ops@) =~= v.update(i as int, finished(v[i as int], status@, finished_at)));
            return true;
        }
        i = i + 1;
    }
    false
}

/// The status an operation is finished with: `done` where its pilot
/// succeeded, else `failed`.
pub fn outcome_status(succeeded: bool) -> (r: &'static str)
    ensures
        r@ == if succeeded {
            "done"@
        } else {
            "failed"@
        },
{
    if succeeded {
        "done"
    } else {
        "failed"
    }
}

// ---------------------------------------------------------------------------
// Times written in the records, and the lines that hold records.
// ---------------------------------------------------------------------------

/// The instant `secs` seconds after the epoch, where `chrono` can hold it.
pub open spec fn secs_time(secs: i64) -> Option<Timestamp> {
    if utc_seconds_in_range(secs) {
        Some(Timestamp { secs, nanos: 0 })
    } else {
        None
    }
}

/// The creation time: an RFC 3339 text, or whole seconds since the epoch (a
/// non-negative count is read as `i64`, wrapping as `u64 as i64` does).
pub open spec fn created_at_from(v: Option<JsonValue>) -> Option<Timestamp> {
    match v {
        Some(JsonValue::Str(t)) => rfc3339_time(t),
        Some(JsonValue::Number(NumberView::UInt(n))) => secs_time(n as i64),
        Some(JsonValue::Number(NumberView::NegInt(n))) => secs_time(n),
        _ => None,
    }
}

/// The finishing time: `null`, an RFC 3339 text, or seconds since the epoch
/// that fit in `i64`. The field must be present. `None` is an error.
pub open spec fn finished_at_from(v: Option<JsonValue>) -> Option<Option<Timestamp>> {
    match v {
        Some(JsonValue::Null) => Some(None),
        Some(JsonValue::Str(t)) => match rfc3339_time(t) {
            Some(x) => Some(Some(x)),
            None => None,
        },
        Some(JsonValue::Number(NumberView::UInt(n))) => if n <= i64::MAX as u64 {
            match secs_time(n as i64) {
                Some(x) => Some(Some(x)),
                None => None,
            }
        } else {
            None
        },
        Some(JsonValue::Number(NumberView::NegInt(n))) => match secs_time(n) {
            Some(x) => Some(Some(x)),
            None => None,
        },
        _ => None,
    }
}

/// Reads a creation time (the value of a required field).
pub fn created_at_of(v: Option<&Json>) -> (r: Option<Timestamp>)
    ensures
        r == created_at_from(ref_view(v)),
{
    match v {
        Some(Json::Str(t)) => parse_rfc3339(t.as_str()),
        Some(Json::Number(JsonNumber::UInt(n))) => utc_from_secs(*n as i64),
        Some(Json::Number(JsonNumber::NegInt(n))) => utc_from_secs(*n),
        _ => None,
    }
}

/// Reads a finishing time (the value of a required field that may be
/// `null`).
pub fn finished_at_of(v: Option<&Json>) -> (r: Option<Option<Timestamp>>)
    ensures
        r == finished_at_from(ref_view(v)),
{
    match v {
        Some(Json::Null) => Some(None),
        Some(Json::Str(t)) => match parse_rfc3339(t.as_str()) {
            Some(x) => Some(Some(x)),
            None => None,
        },
        Some(Json::Number(JsonNumber::UInt(n))) => {
            if *n <= i64::MAX as u64 {
                match utc_from_secs(*n as i64) {
                    Some(x) => Some(Some(x)),
                    None => None,
                }
            } else {
                None
            }
        },
        Some(Json::Number(JsonNumber::NegInt(n))) => match utc_from_secs(*n) {
            Some(x) => Some(Some(x)),
            None => None,
        },
        _ => None,
    }
}

/// The lines of a text, in order, that are not blank.
pub open spec fn non_blank_lines(lines: Seq<Seq<char>>) -> Seq<Seq<char>>
    decreases lines.len(),
{
    if lines.len() == 0 {
        Seq::empty()
    } else {
        let prev = non_blank_lines(lines.drop_last());
        if is_blank(lines.last()) {
            prev
        } else {
            prev.push(lines.last())
        }
    }
}

/// The lines of a mailbox text that hold a record: its lines, as
/// `str::lines` gives them, that are not blank.
pub open spec fn mailbox_records(text: Seq<char>) -> Seq<Seq<char>> {
    non_blank_lines(text_lines(text))
}

pub open spec fn strings_view(v: Seq<String>) -> Seq<Seq<char>> {
    v.map_values(|t: String| t@)
}

fn push_record_line(out: &mut Vec<String>, line: String)
    ensures
        strings_view(final(out)@) == if is_blank(line@) {
            strings_view(old(out)@)
        } else {
            strings_view(old(out)@).push(line@)
        },
{
    if !str_is_blank(line.as_str()) {
        let ghost l = line@;
        out.push(line);
        assert(strings_view(out@) =~= strings_view(old(out)@).push(l));
    }
}

/// The lines of a mailbox text that hold a record, in order: blank lines
/// are skipped; each line loses its `\n` (and a `\r` before it).
pub fn mailbox_lines(text: &str) -> (r: Vec<String>)
    ensures
        strings_view(r@) == mailbox_records(text@),
{
    let mut out: Vec<String> = Vec::new();
    let mut cur = String::new();
    proof {
        assert(strings_view(out@) =~= non_blank_lines(Seq::empty()));
        assert(text@.take(0) == Seq::<char>::empty());
    }
    for c in it: text.chars()
        invariant
            it.seq() == text@,
            split_lines(text@.take(it.index())).1 == cur@,
            strings_view(out@) == non_blank_lines(split_lines(text@.take(it.index())).0),
    {
        let ghost pre = text@.take(it.index());
        proof {
            assert(text@.take(it.index() + 1).drop_last() == pre);
            assert(text@.take(it.index() + 1).last() == c);
        }
        if c == '\n' {
            let ghost before = cur@;
            if cur.unicode_len() > 0 && cur.get_char(cur.unicode_len() - 1) == '\r' {
                pop_char(&mut cur);
            }
            assert(cur@ == line_text(before));
            push_record_line(&mut out, cur);
            proof {
                let ls = split_lines(pre).0;
                assert(ls.push(line_text(before)).drop_last() == ls);
            }
            cur = String::new();
        } else {
            push_char(&mut cur, c);
        }
    }
    proof {
        assert(text@.take(text@.len() as int) == text@);
    }
    if cur.unicode_len() > 0 {
        let ghost last = cur@;
        push_record_line(&mut out, cur);
        proof {
            let ls = split_lines(text@).0;
            assert(ls.push(last).drop_last() == ls);
        }
    }
    out
}

} // verus!
