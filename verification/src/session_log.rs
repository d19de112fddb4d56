//! Workspace-scoped append-only session log.
//!
//! The log is a sequence of entries kept as JSONL at
//! `<workspace>/.orbit/session-log.jsonl`. Bodies are never rewritten; the
//! only mutation is setting `resolved_at` on a `check_later` entry. This
//! module holds the rules over the sequence of entries; reading and writing
//! the file is the caller's.
use vstd::prelude::*;

use crate::decimal::{padded, padded_chars, parse_u32, parse_u32_chars, lemma_padded_parses};
use crate::error::OrbitError;
use crate::json::{JsonValue, json_get, json_str, absent_or_null};
use crate::text::{
    chars_of, copy_string, push_str, seq_starts_with, string_of, trim, trimmed, str_eq, blank,
    is_blank, strings_view,
};

verus! {

#[derive(Debug, Clone, Copy, PartialEq, Eq, Structural)]
pub enum SessionLogKind {
    Status,
    Note,
    CheckLater,
}

/// An instant: seconds since the Unix epoch and the nanoseconds past it.
#[derive(Debug, Clone, Copy, PartialEq, Eq, Structural)]
pub struct Timestamp {
    pub secs: i64,
    pub nanos: u32,
}

/// `a <= b` in time order.
pub open spec fn ts_le(a: Timestamp, b: Timestamp) -> bool {
    a.secs < b.secs || (a.secs == b.secs && a.nanos <= b.nanos)
}

pub fn timestamp_le(a: Timestamp, b: Timestamp) -> (r: bool)
    ensures
        r == ts_le(a, b),
{
    a.secs < b.secs || (a.secs == b.secs && a.nanos <= b.nanos)
}

#[derive(Debug, Clone)]
pub struct SessionLogEntry {
    pub id: String,
    pub at: Timestamp,
    pub kind: SessionLogKind,
    pub body: String,
    pub related_task_ids: Vec<String>,
    pub related_run_ids: Vec<String>,
    pub resolved_at: Option<Timestamp>,
}

pub struct SessionLogEntryView {
    pub id: Seq<char>,
    pub at: Timestamp,
    pub kind: SessionLogKind,
    pub body: Seq<char>,
    pub related_task_ids: Seq<Seq<char>>,
    pub related_run_ids: Seq<Seq<char>>,
    pub resolved_at: Option<Timestamp>,
}

impl View for SessionLogEntry {
    type V = SessionLogEntryView;

    open spec fn view(&self) -> SessionLogEntryView {
        SessionLogEntryView {
            id: self.id@,
            at: self.at,
            kind: self.kind,
            body: self.body@,
            related_task_ids: strings_view(self.related_task_ids@),
            related_run_ids: strings_view(self.related_run_ids@),
            resolved_at: self.resolved_at,
        }
    }
}

pub open spec fn entries_view(v: Seq<SessionLogEntry>) -> Seq<SessionLogEntryView> {
    v.map_values(|e: SessionLogEntry| e@)
}

pub fn copy_strings(v: &Vec<String>) -> (r: Vec<String>)
    ensures
        strings_view(r@) == strings_view(v@),
{
    let mut r: Vec<String> = Vec::new();
    let mut i: usize = 0;
    while i < v.len()
        invariant
            i <= v.len(),
            strings_view(r@) == strings_view(v@.subrange(0, i as int)),
        decreases v.len() - i,
    {
        r.push(copy_string(v[i].as_str()));
        i += 1;
        assert(strings_view(v@.subrange(0, i as int)) =~= strings_view(
            v@.subrange(0, i - 1),
        ).push(v@[i - 1]@));
        assert(strings_view(r@) =~= strings_view(r@.drop_last()).push(r@.last()@));
    }
    assert(v@.subrange(0, v.len() as int) =~= v@);
    r
}

impl SessionLogEntry {
    /// A copy with the same view.
    pub fn duplicate(&self) -> (r: SessionLogEntry)
        ensures
            r@ == self@,
    {
        SessionLogEntry {
            id: copy_string(self.id.as_str()),
            at: self.at,
            kind: self.kind,
            body: copy_string(self.body.as_str()),
            related_task_ids: copy_strings(&self.related_task_ids),
            related_run_ids: copy_strings(&self.related_run_ids),
            resolved_at: self.resolved_at,
        }
    }
}

/// The kind a (trimmed) name denotes.
pub open spec fn kind_from_name(name: Seq<char>) -> Option<SessionLogKind> {
    if name == "status"@ {
        Some(SessionLogKind::Status)
    } else if name == "note"@ {
        Some(SessionLogKind::Note)
    } else if name == "check_later"@ {
        Some(SessionLogKind::CheckLater)
    } else {
        None
    }
}

pub open spec fn unknown_kind_message(name: Seq<char>) -> Seq<char> {
    "unknown session-log kind `"@ + name + "` (expected status, note, or check_later)"@
}

/// The result of `SessionLogKind::parse` on `raw`.
pub open spec fn parse_kind_spec(raw: Seq<char>) -> Result<SessionLogKind, Seq<char>> {
    match kind_from_name(trim(raw)) {
        Some(k) => Ok(k),
        None => Err(unknown_kind_message(trim(raw))),
    }
}

pub open spec fn invalid_input_is(r: Result<SessionLogKind, OrbitError>, m: Seq<char>) -> bool {
    r matches Err(OrbitError::InvalidInput(x)) && x@ == m
}

/// `{:?}` of a kind.
pub open spec fn kind_debug_name(kind: SessionLogKind) -> Seq<char> {
    match kind {
        SessionLogKind::Status => "Status"@,
        SessionLogKind::Note => "Note"@,
        SessionLogKind::CheckLater => "CheckLater"@,
    }
}

impl SessionLogKind {
    /// Parses a kind name, ignoring surrounding whitespace.
    pub fn parse(raw: &str) -> (r: Result<SessionLogKind, OrbitError>)
        ensures
            match parse_kind_spec(raw@) {
                Ok(k) => r == Ok::<SessionLogKind, OrbitError>(k),
                Err(m) => invalid_input_is(r, m),
            },
    {
        let name = trimmed(raw);
        if str_eq(name.as_str(), "status") {
            Ok(SessionLogKind::Status)
        } else if str_eq(name.as_str(), "note") {
            Ok(SessionLogKind::Note)
        } else if str_eq(name.as_str(), "check_later") {
            Ok(SessionLogKind::CheckLater)
        } else {
            let mut m = String::new();
            push_str(&mut m, "unknown session-log kind `");
            push_str(&mut m, name.as_str());
            push_str(&mut m, "` (expected status, note, or check_later)");
            assert(m@ =~= unknown_kind_message(trim(raw@)));
            Err(OrbitError::InvalidInput(m))
        }
    }

    pub fn debug_name(&self) -> (s: String)
        ensures
            s@ == kind_debug_name(*self),
    {
        match self {
            SessionLogKind::Status => copy_string("Status"),
            SessionLogKind::Note => copy_string("Note"),
            SessionLogKind::CheckLater => copy_string("CheckLater"),
        }
    }
}

/// `Path::join` of a relative file name onto a directory.
pub open spec fn path_join(dir: Seq<char>, name: Seq<char>) -> Seq<char> {
    if dir.len() == 0 {
        name
    } else if dir.last() == '/' {
        dir + name
    } else {
        dir + seq!['/'] + name
    }
}

/// `Path::new(dir).join(name)` for a relative `name`.
pub fn join_path(dir: &str, name: &str) -> (p: String)
    ensures
        p@ == path_join(dir@, name@),
{
    let d = chars_of(dir);
    let mut p = String::new();
    if d.len() == 0 {
        push_str(&mut p, name);
        assert(p@ =~= name@);
    } else if d[d.len() - 1] == '/' {
        push_str(&mut p, dir);
        push_str(&mut p, name);
        assert(p@ =~= dir@ + name@);
    } else {
        push_str(&mut p, dir);
        push_str(&mut p, "/");
        push_str(&mut p, name);
        proof {
            reveal_strlit("/");
        }
        assert(p@ =~= dir@ + seq!['/'] + name@);
    }
    p
}

/// Where the log of the workspace whose `.orbit` directory is `orbit_dir`
/// is kept.
pub fn log_path(orbit_dir: &str) -> (p: String)
    ensures
        p@ == path_join(orbit_dir@, "session-log.jsonl"@),
{
    join_path(orbit_dir, "session-log.jsonl")
}

pub open spec fn id_prefix() -> Seq<char> {
    seq!['S', 'L', '-']
}

/// The number an entry id `SL-<n>` carries.
pub open spec fn entry_number(id: Seq<char>) -> Option<u32> {
    if id.len() >= 3 && id.subrange(0, 3) == id_prefix() {
        parse_u32(id.subrange(3, id.len() as int))
    } else {
        None
    }
}

/// The largest number carried by an entry id, or `0`.
pub open spec fn max_number(entries: Seq<SessionLogEntryView>) -> u32
    decreases entries.len(),
{
    if entries.len() == 0 {
        0
    } else {
        let m = max_number(entries.drop_last());
        match entry_number(entries.last().id) {
            Some(n) => if n > m {
                n
            } else {
                m
            },
            None => m,
        }
    }
}

/// The number the next appended entry carries.
pub open spec fn next_number(entries: Seq<SessionLogEntryView>) -> u32 {
    let m = max_number(entries);
    if m == u32::MAX {
        m
    } else {
        (m + 1) as u32
    }
}

/// `format!("SL-{n:04}")`.
pub open spec fn entry_id(n: u32) -> Seq<char> {
    id_prefix() + padded(n as nat, 4)
}

pub proof fn lemma_max_number_bounds(entries: Seq<SessionLogEntryView>, i: int)
    requires
        0 <= i < entries.len(),
    ensures
        entry_number(entries[i].id) is Some ==> entry_number(entries[i].id)->0 <= max_number(
            entries,
        ),
    decreases entries.len(),
{
    if i < entries.len() - 1 {
        lemma_max_number_bounds(entries.drop_last(), i);
        assert(entries.drop_last()[i] == entries[i]);
    }
}

/// The id of a minted entry reads back as the number it was minted from.
pub proof fn lemma_entry_id_round_trip(n: u32)
    ensures
        entry_number(entry_id(n)) == Some(n),
{
    lemma_padded_parses(n, 4);
    let id = entry_id(n);
    assert(id.subrange(0, 3) =~= id_prefix());
    assert(id.subrange(3, id.len() as int) =~= padded(n as nat, 4));
}

fn entry_number_of(id: &str) -> (r: Option<u32>)
    ensures
        r == entry_number(id@),
{
    let v = chars_of(id);
    let p: [char; 3] = ['S', 'L', '-'];
    if v.len() < 3 {
        return None;
    }
    assert(p@ =~= id_prefix());
    if !seq_starts_with(v.as_slice(), p.as_slice()) {
        return None;
    }
    let mut rest: Vec<char> = Vec::new();
    let mut i: usize = 3;
    while i < v.len()
        invariant
            3 <= i <= v.len(),
            rest@ == v@.subrange(3, i as int),
        decreases v.len() - i,
    {
        rest.push(v[i]);
        i += 1;
        assert(rest@ =~= v@.subrange(3, i as int));
    }
    parse_u32_chars(rest.as_slice())
}

fn max_entry_number(entries: &Vec<SessionLogEntry>) -> (m: u32)
    ensures
        m == max_number(entries_view(entries@)),
{
    let mut m: u32 = 0;
    let mut i: usize = 0;
    while i < entries.len()
        invariant
            i <= entries.len(),
            m == max_number(entries_view(entries@.subrange(0, i as int))),
        decreases entries.len() - i,
    {
        let n = entry_number_of(entries[i].id.as_str());
        assert(entries_view(entries@.subrange(0, i + 1)).drop_last() =~= entries_view(
            entries@.subrange(0, i as int),
        ));
        match n {
            Some(k) => {
                if k > m {
                    m = k;
                }
            },
            None => {},
        }
        i += 1;
    }
    assert(entries@.subrange(0, entries.len() as int) =~= entries@);
    m
}

fn format_entry_id(n: u32) -> (s: String)
    ensures
        s@ == entry_id(n),
{
    let mut v: Vec<char> = Vec::new();
    v.push('S');
    v.push('L');
    v.push('-');
    let digits = padded_chars(n, 4);
    let mut i: usize = 0;
    while i < digits.len()
        invariant
            i <= digits.len(),
            v@ == id_prefix() + digits@.subrange(0, i as int),
        decreases digits.len() - i,
    {
        v.push(digits[i]);
        i += 1;
        assert(v@ =~= id_prefix() + digits@.subrange(0, i as int));
    }
    assert(digits@.subrange(0, digits.len() as int) =~= digits@);
    string_of(v.as_slice())
}

/// The entry `append` adds for the given inputs.
pub open spec fn appended_entry(
    entries: Seq<SessionLogEntryView>,
    kind: SessionLogKind,
    body: Seq<char>,
    related_task_ids: Seq<Seq<char>>,
    related_run_ids: Seq<Seq<char>>,
    now: Timestamp,
) -> SessionLogEntryView {
    SessionLogEntryView {
        id: entry_id(next_number(entries)),
        at: now,
        kind,
        body: trim(body),
        related_task_ids,
        related_run_ids,
        resolved_at: None,
    }
}

/// Appends an entry stamped `now`. The body is trimmed and must not be empty.
/// The new id carries one more than the largest number among existing ids.
pub fn append(
    entries: &mut Vec<SessionLogEntry>,
    kind: SessionLogKind,
    body: String,
    related_task_ids: Vec<String>,
    related_run_ids: Vec<String>,
    now: Timestamp,
) -> (r: Result<SessionLogEntry, OrbitError>)
    ensures
        is_blank(body@) ==> {
            &&& r matches Err(OrbitError::InvalidInput(m)) && m@
                == "session-log body must be non-empty"@
            &&& final(entries)@ == old(entries)@
        },
        !is_blank(body@) ==> {
            &&& r is Ok
            &&& r->Ok_0@ == appended_entry(
                entries_view(old(entries)@),
                kind,
                body@,
                strings_view(related_task_ids@),
                strings_view(related_run_ids@),
                now,
            )
            &&& entries_view(final(entries)@) == entries_view(old(entries)@).push(r->Ok_0@)
        },
{
    if blank(body.as_str()) {
        return Err(OrbitError::InvalidInput(copy_string("session-log body must be non-empty")));
    }
    let max = max_entry_number(entries);
    let next = if max == u32::MAX {
        max
    } else {
        max + 1
    };
    let entry = SessionLogEntry {
        id: format_entry_id(next),
        at: now,
        kind,
        body: trimmed(body.as_str()),
        related_task_ids,
        related_run_ids,
        resolved_at: None,
    };
    let out = entry.duplicate();
    let ghost before = entries@;
    entries.push(entry);
    assert(entries_view(entries@) =~= entries_view(before).push(out@));
    Ok(out)
}

/// Appending never reuses an id: while the largest number in use is below
/// `u32::MAX`, the minted id differs from every existing entry's id.
pub proof fn law_append_mints_fresh_id(
    entries: Seq<SessionLogEntryView>,
    kind: SessionLogKind,
    body: Seq<char>,
    related_task_ids: Seq<Seq<char>>,
    related_run_ids: Seq<Seq<char>>,
    now: Timestamp,
)
    requires
        max_number(entries) < u32::MAX,
    ensures
        forall|i: int|
            0 <= i < entries.len() ==> #[trigger] entries[i].id != appended_entry(
                entries,
                kind,
                body,
                related_task_ids,
                related_run_ids,
                now,
            ).id,
{
    let id = appended_entry(entries, kind, body, related_task_ids, related_run_ids, now).id;
    lemma_entry_id_round_trip(next_number(entries));
    assert forall|i: int| 0 <= i < entries.len() implies #[trigger] entries[i].id != id by {
        lemma_max_number_bounds(entries, i);
    }
}

/// Whether `list` keeps an entry.
pub open spec fn listed(
    e: SessionLogEntryView,
    kind: Option<SessionLogKind>,
    unresolved_only: bool,
    since: Option<Timestamp>,
) -> bool {
    &&& (kind matches Some(want) ==> e.kind == want)
    &&& (since matches Some(bound) ==> ts_le(bound, e.at))
    &&& (unresolved_only ==> (e.kind == SessionLogKind::CheckLater && e.resolved_at is None))
}

fn keeps(
    e: &SessionLogEntry,
    kind: Option<SessionLogKind>,
    unresolved_only: bool,
    since: Option<Timestamp>,
) -> (b: bool)
    ensures
        b == listed(e@, kind, unresolved_only, since),
{
    let kind_ok = match kind {
        Some(want) => e.kind == want,
        None => true,
    };
    let since_ok = match since {
        Some(bound) => timestamp_le(bound, e.at),
        None => true,
    };
    let unresolved_ok = !unresolved_only || (e.kind == SessionLogKind::CheckLater
        && e.resolved_at.is_none());
    kind_ok && since_ok && unresolved_ok
}

/// The entries, in log order, that match every given filter.
pub fn list(
    entries: &Vec<SessionLogEntry>,
    kind: Option<SessionLogKind>,
    unresolved_only: bool,
    since: Option<Timestamp>,
) -> (out: Vec<SessionLogEntry>)
    ensures
        entries_view(out@) == entries_view(entries@).filter(
            |e: SessionLogEntryView| listed(e, kind, unresolved_only, since),
        ),
{
    let ghost pred = |e: SessionLogEntryView| listed(e, kind, unresolved_only, since);
    let mut out: Vec<SessionLogEntry> = Vec::new();
    let mut i: usize = 0;
    while i < entries.len()
        invariant
            i <= entries.len(),
            pred == (|e: SessionLogEntryView| listed(e, kind, unresolved_only, since)),
            entries_view(out@) == entries_view(entries@.subrange(0, i as int)).filter(pred),
        decreases entries.len() - i,
    {
        let ghost prefix = entries_view(entries@.subrange(0, i as int));
        assert(entries_view(entries@.subrange(0, i + 1)) =~= prefix.push(entries@[i as int]@));
        proof {
            prefix.lemma_filter_push(entries@[i as int]@, pred);
        }
        if keeps(&entries[i], kind, unresolved_only, since) {
            let ghost before = out@;
            out.push(entries[i].duplicate());
            assert(entries_view(out@) =~= entries_view(before).push(entries@[i as int]@));
        }
        i += 1;
    }
    assert(entries@.subrange(0, entries.len() as int) =~= entries@);
    out
}

/// The index of the first entry at or after `i` whose id is `id`, if any.
pub open spec fn first_with_id(entries: Seq<SessionLogEntryView>, id: Seq<char>, i: int) -> Option<
    int,
>
    decreases entries.len() - i,
{
    if i < 0 || i >= entries.len() {
        None
    } else if entries[i].id == id {
        Some(i)
    } else {
        first_with_id(entries, id, i + 1)
    }
}

proof fn lemma_first_with_id_bounds(entries: Seq<SessionLogEntryView>, id: Seq<char>, i: int)
    requires
        0 <= i,
    ensures
        first_with_id(entries, id, i) matches Some(k) ==> i <= k < entries.len()
            && entries[k].id == id,
    decreases entries.len() - i,
{
    if i < entries.len() && entries[i].id != id {
        lemma_first_with_id_bounds(entries, id, i + 1);
    }
}

pub open spec fn resolved_view(e: SessionLogEntryView, now: Timestamp) -> SessionLogEntryView {
    SessionLogEntryView { resolved_at: Some(now), ..e }
}

/// What `resolve` answers and leaves behind, as error message or index.
pub open spec fn resolve_outcome(entries: Seq<SessionLogEntryView>, id: Seq<char>) -> Result<
    int,
    Seq<char>,
> {
    let key = trim(id);
    if key.len() == 0 {
        Err("session-log id is required"@)
    } else {
        match first_with_id(entries, key, 0) {
            None => Err("session-log id not found: "@ + key),
            Some(i) => if entries[i].kind != SessionLogKind::CheckLater {
                Err(
                    key + " is kind "@ + kind_debug_name(entries[i].kind)
                        + " — only check_later entries can be resolved"@,
                )
            } else if entries[i].resolved_at is Some {
                Err(key + " is already resolved"@)
            } else {
                Ok(i)
            },
        }
    }
}

fn find_entry(entries: &Vec<SessionLogEntry>, key: &str) -> (r: Option<usize>)
    ensures
        r matches Some(j) ==> first_with_id(entries_view(entries@), key@, 0) == Some(j as int),
        r is None ==> first_with_id(entries_view(entries@), key@, 0) is None,
{
    let ghost ev = entries_view(entries@);
    let mut index: usize = 0;
    while index < entries.len()
        invariant
            index <= entries.len(),
            ev == entries_view(entries@),
            first_with_id(ev, key@, index as int) == first_with_id(ev, key@, 0),
        decreases entries.len() - index,
    {
        if str_eq(entries[index].id.as_str(), key) {
            return Some(index);
        }
        index += 1;
    }
    None
}

fn not_found_message(key: &str) -> (m: String)
    ensures
        m@ == "session-log id not found: "@ + key@,
{
    let mut m = String::new();
    push_str(&mut m, "session-log id not found: ");
    push_str(&mut m, key);
    m
}

fn wrong_kind_message(key: &str, kind: SessionLogKind) -> (m: String)
    ensures
        m@ == key@ + " is kind "@ + kind_debug_name(kind)
            + " — only check_later entries can be resolved"@,
{
    let mut m = String::new();
    push_str(&mut m, key);
    push_str(&mut m, " is kind ");
    let name = kind.debug_name();
    push_str(&mut m, name.as_str());
    push_str(&mut m, " — only check_later entries can be resolved");
    m
}

fn already_resolved_message(key: &str) -> (m: String)
    ensures
        m@ == key@ + " is already resolved"@,
{
    let mut m = String::new();
    push_str(&mut m, key);
    push_str(&mut m, " is already resolved");
    m
}

/// Marks the `check_later` entry `id` resolved at `now`.
pub fn resolve(entries: &mut Vec<SessionLogEntry>, id: &str, now: Timestamp) -> (r: Result<
    SessionLogEntry,
    OrbitError,
>)
    ensures
        match resolve_outcome(entries_view(old(entries)@), id@) {
            Err(m) => {
                &&& r matches Err(OrbitError::InvalidInput(x)) && x@ == m
                &&& final(entries)@ == old(entries)@
            },
            Ok(i) => {
                &&& r is Ok
                &&& r->Ok_0@ == resolved_view(entries_view(old(entries)@)[i], now)
                &&& entries_view(final(entries)@) == entries_view(old(entries)@).update(
                    i,
                    r->Ok_0@,
                )
            },
        },
{
    if blank(id) {
        return Err(OrbitError::InvalidInput(copy_string("session-log id is required")));
    }
    let key = trimmed(id);
    proof {
        lemma_first_with_id_bounds(entries_view(entries@), key@, 0);
    }
    let found = find_entry(entries, key.as_str());
    let index = match found {
        None => {
            return Err(OrbitError::InvalidInput(not_found_message(key.as_str())));
        },
        Some(k) => k,
    };
    assert(entries_view(entries@)[index as int] == entries@[index as int]@);
    let ghost outcome = resolve_outcome(entries_view(entries@), id@);
    assert(first_with_id(entries_view(entries@), key@, 0) == Some(index as int));
    if entries[index].kind != SessionLogKind::CheckLater {
        let m = wrong_kind_message(key.as_str(), entries[index].kind);
        assert(outcome == Err::<int, Seq<char>>(m@));
        return Err(OrbitError::InvalidInput(m));
    }
    if entries[index].resolved_at.is_some() {
        let m = already_resolved_message(key.as_str());
        assert(outcome == Err::<int, Seq<char>>(m@));
        return Err(OrbitError::InvalidInput(m));
    }
    let mut updated = entries[index].duplicate();
    updated.resolved_at = Some(now);
    let out = updated.duplicate();
    let ghost before = entries@;
    entries.set(index, updated);
    assert(entries_view(entries@) =~= entries_view(before).update(index as int, out@));
    Ok(out)
}

proof fn lemma_first_with_id_same_ids(
    a: Seq<SessionLogEntryView>,
    b: Seq<SessionLogEntryView>,
    id: Seq<char>,
    i: int,
)
    requires
        a.len() == b.len(),
        forall|j: int| 0 <= j < a.len() ==> #[trigger] a[j].id == b[j].id,
    ensures
        first_with_id(a, id, i) == first_with_id(b, id, i),
    decreases a.len() - i,
{
    if 0 <= i < a.len() && a[i].id != id {
        lemma_first_with_id_same_ids(a, b, id, i + 1);
    }
}

/// Resolving keeps every entry's id, instant, kind, body and related ids;
/// only the resolved entry's `resolved_at` changes.
pub proof fn law_resolve_only_stamps(entries: Seq<SessionLogEntryView>, id: Seq<char>, now: Timestamp)
    requires
        resolve_outcome(entries, id) is Ok,
    ensures
        ({
            let i = resolve_outcome(entries, id)->Ok_0;
            let after = entries.update(i, resolved_view(entries[i], now));
            &&& after.len() == entries.len()
            &&& forall|j: int|
                0 <= j < entries.len() ==> {
                    &&& #[trigger] after[j].id == entries[j].id
                    &&& after[j].at == entries[j].at
                    &&& after[j].kind == entries[j].kind
                    &&& after[j].body == entries[j].body
                    &&& after[j].related_task_ids == entries[j].related_task_ids
                    &&& after[j].related_run_ids == entries[j].related_run_ids
                    &&& (j != i ==> after[j].resolved_at == entries[j].resolved_at)
                }
            &&& after[i].resolved_at == Some(now)
        }),
{
    lemma_first_with_id_bounds(entries, trim(id), 0);
}

/// A resolved entry cannot be resolved again: the second attempt answers
/// "already resolved" and leaves the log alone.
pub proof fn law_resolve_twice_refused(entries: Seq<SessionLogEntryView>, id: Seq<char>, now: Timestamp)
    requires
        resolve_outcome(entries, id) is Ok,
    ensures
        ({
            let i = resolve_outcome(entries, id)->Ok_0;
            let after = entries.update(i, resolved_view(entries[i], now));
            resolve_outcome(after, id) == Err::<int, Seq<char>>(trim(id) + " is already resolved"@)
        }),
{
    let key = trim(id);
    lemma_first_with_id_bounds(entries, key, 0);
    let i = resolve_outcome(entries, id)->Ok_0;
    let after = entries.update(i, resolved_view(entries[i], now));
    assert forall|j: int| 0 <= j < entries.len() implies #[trigger] entries[j].id == after[j].id by {}
    lemma_first_with_id_same_ids(entries, after, key, 0);
}

/// A resolved entry drops out of the unresolved listing.
pub proof fn law_resolved_not_listed_unresolved(
    entries: Seq<SessionLogEntryView>,
    id: Seq<char>,
    now: Timestamp,
    since: Option<Timestamp>,
)
    requires
        resolve_outcome(entries, id) is Ok,
    ensures
        ({
            let i = resolve_outcome(entries, id)->Ok_0;
            let after = entries.update(i, resolved_view(entries[i], now));
            !listed(after[i], None, true, since)
        }),
{
    lemma_first_with_id_bounds(entries, trim(id), 0);
}

/// The `kind` field of a tool input, which must be present.
pub fn parse_kind(input: &JsonValue) -> (r: Result<SessionLogKind, OrbitError>)
    ensures
        match json_str(json_get(*input, "kind"@)) {
            None => invalid_input_is(r, "kind is required"@),
            Some(raw) => match parse_kind_spec(raw) {
                Ok(k) => r == Ok::<SessionLogKind, OrbitError>(k),
                Err(m) => invalid_input_is(r, m),
            },
        },
{
    match input.get("kind") {
        Some(v) => match v.as_text() {
            Some(raw) => SessionLogKind::parse(raw.as_str()),
            None => Err(OrbitError::InvalidInput(copy_string("kind is required"))),
        },
        None => Err(OrbitError::InvalidInput(copy_string("kind is required"))),
    }
}

/// The optional `kind` filter of a tool input.
pub fn parse_optional_kind(input: &JsonValue) -> (r: Result<Option<SessionLogKind>, OrbitError>)
    ensures
        absent_or_null(json_get(*input, "kind"@)) ==> r == Ok::<
            Option<SessionLogKind>,
            OrbitError,
        >(None),
        json_get(*input, "kind"@) matches Some(JsonValue::Str(raw)) ==> match parse_kind_spec(
            raw@,
        ) {
            Ok(k) => r == Ok::<Option<SessionLogKind>, OrbitError>(Some(k)),
            Err(m) => r matches Err(OrbitError::InvalidInput(x)) && x@ == m,
        },
        (!absent_or_null(json_get(*input, "kind"@)) && !(json_get(*input, "kind"@) matches Some(
            JsonValue::Str(_),
        ))) ==> (r matches Err(OrbitError::InvalidInput(x)) && x@ == "kind must be a string"@),
{
    match input.get("kind") {
        None => Ok(None),
        Some(JsonValue::Null) => Ok(None),
        Some(JsonValue::Str(raw)) => match SessionLogKind::parse(raw.as_str()) {
            Ok(k) => Ok(Some(k)),
            Err(e) => Err(e),
        },
        Some(_) => Err(OrbitError::InvalidInput(copy_string("kind must be a string"))),
    }
}

/// Items of an id-list field: each must be a string that is not blank once
/// trimmed.
pub open spec fn id_items(items: Seq<JsonValue>) -> Option<Seq<Seq<char>>>
    decreases items.len(),
{
    if items.len() == 0 {
        Some(Seq::empty())
    } else {
        match id_items(items.drop_last()) {
            None => None,
            Some(prev) => match items.last() {
                JsonValue::Str(s) => if trim(s@).len() == 0 {
                    None
                } else {
                    Some(prev.push(trim(s@)))
                },
                _ => None,
            },
        }
    }
}

/// The id list a field carries: `Ok(None)` stands for "not a list".
pub open spec fn id_list_spec(v: Option<JsonValue>) -> Option<Seq<Seq<char>>> {
    match v {
        None => Some(Seq::empty()),
        Some(JsonValue::Null) => Some(Seq::empty()),
        Some(JsonValue::Array(items)) => id_items(items@),
        _ => None,
    }
}

/// The `field` list of ids of a tool input; absent or `null` is empty.
pub fn parse_id_list(input: &JsonValue, field: &str) -> (r: Result<Vec<String>, OrbitError>)
    ensures
        match id_list_spec(json_get(*input, field@)) {
            Some(ids) => r is Ok && strings_view(r->Ok_0@) == ids,
            None => r matches Err(OrbitError::InvalidInput(x)) && x@ == field@
                + " must be an array of strings"@,
        },
{
    match input.get(field) {
        None => Ok(Vec::new()),
        Some(JsonValue::Null) => Ok(Vec::new()),
        Some(JsonValue::Array(items)) => {
            let mut out: Vec<String> = Vec::new();
            let mut i: usize = 0;
            while i < items.len()
                invariant
                    i <= items.len(),
                    id_items(items@.subrange(0, i as int)) == Some(strings_view(out@)),
                    json_get(*input, field@) == Some(JsonValue::Array(*items)),
                decreases items.len() - i,
            {
                assert(items@.subrange(0, i + 1).drop_last() =~= items@.subrange(0, i as int));
                let ok = match &items[i] {
                    JsonValue::Str(s) => {
                        if blank(s.as_str()) {
                            false
                        } else {
                            let ghost before = out@;
                            out.push(trimmed(s.as_str()));
                            assert(strings_view(out@) =~= strings_view(before).push(trim(s@)));
                            true
                        }
                    },
                    _ => false,
                };
                if !ok {
                    proof {
                        let sub = items@.subrange(0, i + 1);
                        assert(sub.last() == items@[i as int]);
                        assert(id_items(sub) is None);
                        lemma_id_items_none(items@, i as int);
                    }
                    let mut m = String::new();
                    push_str(&mut m, field);
                    push_str(&mut m, " must be an array of strings");
                    return Err(OrbitError::InvalidInput(m));
                }
                i += 1;
            }
            assert(items@.subrange(0, items.len() as int) =~= items@);
            Ok(out)
        },
        Some(_) => {
            let mut m = String::new();
            push_str(&mut m, field);
            push_str(&mut m, " must be an array of strings");
            Err(OrbitError::InvalidInput(m))
        },
    }
}

/// The instant `chrono::DateTime::parse_from_rfc3339` reads from `raw`, as
/// whole seconds since the Unix epoch and the nanoseconds past them, or the
/// display text of its parse error.
pub uninterp spec fn rfc3339_instant(raw: Seq<char>) -> Result<(i64, u32), Seq<char>>;

/// Calls `chrono::DateTime::parse_from_rfc3339` and reports the instant as
/// `(timestamp(), timestamp_subsec_nanos())`, or the error's display text.
/// Claimed: the outcome is `rfc3339_instant(raw)`, a function of `raw` alone.
#[verifier::external_body]
pub(crate) fn parse_rfc3339(raw: &str) -> (r: Result<(i64, u32), String>)
    ensures
        match r {
            Ok(p) => rfc3339_instant(raw@) == Ok::<(i64, u32), Seq<char>>(p),
            Err(e) => rfc3339_instant(raw@) == Err::<(i64, u32), Seq<char>>(e@),
        },
{
    match chrono::DateTime::parse_from_rfc3339(raw) {
        Ok(dt) => Ok((dt.timestamp(), dt.timestamp_subsec_nanos())),
        Err(error) => Err(error.to_string()),
    }
}

/// The optional `since` bound of a tool input, an RFC 3339 string.
pub fn parse_since(input: &JsonValue) -> (r: Result<Option<Timestamp>, OrbitError>)
    ensures
        absent_or_null(json_get(*input, "since"@)) ==> r == Ok::<
            Option<Timestamp>,
            OrbitError,
        >(None),
        json_get(*input, "since"@) matches Some(JsonValue::Str(raw)) ==> match rfc3339_instant(
            raw@,
        ) {
            Ok(p) => r == Ok::<Option<Timestamp>, OrbitError>(
                Some(Timestamp { secs: p.0, nanos: p.1 }),
            ),
            Err(e) => r matches Err(OrbitError::InvalidInput(x)) && x@
                == "since must be RFC3339: "@ + e,
        },
        (!absent_or_null(json_get(*input, "since"@)) && !(json_get(*input, "since"@) matches Some(
            JsonValue::Str(_),
        ))) ==> (r matches Err(OrbitError::InvalidInput(x)) && x@
            == "since must be an RFC3339 string"@),
{
    match input.get("since") {
        None => Ok(None),
        Some(JsonValue::Null) => Ok(None),
        Some(JsonValue::Str(raw)) => match parse_rfc3339(raw.as_str()) {
            Ok(p) => Ok(Some(Timestamp { secs: p.0, nanos: p.1 })),
            Err(e) => {
                let mut m = String::new();
                push_str(&mut m, "since must be RFC3339: ");
                push_str(&mut m, e.as_str());
                Err(OrbitError::InvalidInput(m))
            },
        },
        Some(_) => Err(OrbitError::InvalidInput(copy_string("since must be an RFC3339 string"))),
    }
}

proof fn lemma_id_items_none(items: Seq<JsonValue>, i: int)
    requires
        0 <= i < items.len(),
        id_items(items.subrange(0, i + 1)) is None,
    ensures
        id_items(items) is None,
    decreases items.len() - i,
{
    if i + 1 < items.len() {
        assert(items.subrange(0, i + 2).drop_last() =~= items.subrange(0, i + 1));
        lemma_id_items_none(items, i + 1);
    } else {
        assert(items.subrange(0, i + 1) =~= items);
    }
}

/// The `body` string of an append request, as given.
pub fn required_body(input: &JsonValue) -> (r: Result<String, OrbitError>)
    ensures
        match crate::json::str_field(*input, "body"@) {
            Some(b) => r matches Ok(x) && x@ == b,
            None => r matches Err(OrbitError::InvalidInput(m)) && m@ == "body is required"@,
        },
{
    match crate::json::get_str(input, "body") {
        Some(b) => Ok(copy_string(b.as_str())),
        None => Err(OrbitError::InvalidInput(copy_string("body is required"))),
    }
}

/// The `id` string of a resolve request, as given.
pub fn required_id(input: &JsonValue) -> (r: Result<String, OrbitError>)
    ensures
        match crate::json::str_field(*input, "id"@) {
            Some(b) => r matches Ok(x) && x@ == b,
            None => r matches Err(OrbitError::InvalidInput(m)) && m@ == "id is required"@,
        },
{
    match crate::json::get_str(input, "id") {
        Some(b) => Ok(copy_string(b.as_str())),
        None => Err(OrbitError::InvalidInput(copy_string("id is required"))),
    }
}

/// Whether a listing asks for unresolved entries only: `unresolved_only`
/// when it is a boolean, else no.
pub fn unresolved_only(input: &JsonValue) -> (b: bool)
    ensures
        b == (crate::json::json_get(*input, "unresolved_only"@) == Some(JsonValue::Bool(true))),
{
    match input.get("unresolved_only") {
        Some(JsonValue::Bool(v)) => *v,
        _ => false,
    }
}

} // verus!
