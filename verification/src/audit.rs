//! Audit records of coordination holds, authorization decisions and
//! artifact redactions: their statuses, exit codes and the fields they
//! carry.
use vstd::prelude::*;

use crate::decimal::{parse_u32, parse_u32_chars};
use crate::error::OrbitError;
use crate::json::{JsonValue, field_from, json_get, str_field};
use crate::text::{
    chars_of, copy_string, non_blank, non_blank_owned, opt_view, push_str, string_of, trim,
};

verus! {

/// The outcome an audit record carries.
#[derive(Debug, Clone, Copy, PartialEq, Eq, Structural)]
pub enum AuditEventStatus {
    Success,
    Failure,
    Denied,
}

/// A coordination hold is audited with exit code 1 only when denied.
pub fn coordination_exit_code(status: AuditEventStatus) -> (c: i32)
    ensures
        c == if status == AuditEventStatus::Denied {
            1i32
        } else {
            0i32
        },
{
    if status == AuditEventStatus::Denied {
        1
    } else {
        0
    }
}

/// An authorization decision is audited with exit code 0 only on success.
pub fn authorization_exit_code(status: AuditEventStatus) -> (c: i32)
    ensures
        c == if status == AuditEventStatus::Success {
            0i32
        } else {
            1i32
        },
{
    if status == AuditEventStatus::Success {
        0
    } else {
        1
    }
}

/// `command` with every `.` turned into `-`.
pub open spec fn dashed(s: Seq<char>) -> Seq<char> {
    Seq::new(s.len(), |i: int| if s[i] == '.' {
        '-'
    } else {
        s[i]
    })
}

/// `audit-{command}` with the command's dots turned into dashes.
pub fn execution_id_prefix(command: &str) -> (r: String)
    ensures
        r@ == "audit-"@ + dashed(command@),
{
    let cs = chars_of(command);
    let mut out: Vec<char> = Vec::new();
    let mut i: usize = 0;
    while i < cs.len()
        invariant
            i <= cs.len(),
            cs@ == command@,
            out@ == dashed(cs@).take(i as int),
        decreases cs.len() - i,
    {
        out.push(if cs[i] == '.' {
            '-'
        } else {
            cs[i]
        });
        i += 1;
        assert(out@ =~= dashed(cs@).take(i as int));
    }
    assert(dashed(cs@).take(cs.len() as int) =~= dashed(cs@));
    let mut r = copy_string("audit-");
    let tail = string_of(out.as_slice());
    push_str(&mut r, tail.as_str());
    r
}

/// The run a coordination event is charged to: the payload's non-blank
/// `owner_run_id`, else the non-empty run id of the environment.
pub open spec fn audit_run_id_spec(payload: JsonValue, env_run_id: Option<Seq<char>>) -> Option<Seq<char>> {
    match non_blank(str_field(payload, "owner_run_id"@)) {
        Some(r) => Some(r),
        None => match env_run_id {
            Some(e) => if e.len() > 0 {
                Some(e)
            } else {
                None
            },
            None => None,
        },
    }
}

pub fn audit_run_id(payload: &JsonValue, env_run_id: Option<&str>) -> (r: Option<String>)
    ensures
        crate::text::opt_string_view(r) == audit_run_id_spec(*payload, opt_view(env_run_id)),
{
    let owner = match crate::json::get_str(payload, "owner_run_id") {
        Some(s) => non_blank_owned(Some(s.as_str())),
        None => non_blank_owned(None),
    };
    match owner {
        Some(o) => Some(o),
        None => match env_run_id {
            Some(e) => if e.is_empty() {
                None
            } else {
                Some(copy_string(e))
            },
            None => None,
        },
    }
}

/// The audit row of one coordination-hold event (a file reservation or a
/// workspace claim), before the process facts are added. Its payload is
/// recorded serialized as the row's arguments.
#[derive(Debug)]
pub struct CoordinationAuditRow {
    pub execution_id_prefix: String,
    pub command: String,
    pub tool_name: String,
    pub target_type: String,
    pub target_id: Option<String>,
    pub task_id: Option<String>,
    pub role: String,
    pub status: AuditEventStatus,
    pub exit_code: i32,
    pub duration_ms: u64,
    pub job_run_id: Option<String>,
    pub payload: JsonValue,
}

/// The row of a coordination event: the names and ids as given, role
/// `admin`, exit code 1 exactly for a denial, no duration, the run the
/// payload's owner names (else the environment's run), and the payload.
pub fn coordination_audit_row(
    command: &str,
    tool_name: &str,
    target_type: &str,
    target_id: Option<&str>,
    task_id: Option<&str>,
    status: AuditEventStatus,
    payload: JsonValue,
    env_run_id: Option<&str>,
) -> (r: CoordinationAuditRow)
    ensures
        r.execution_id_prefix@ == "audit-"@ + dashed(command@),
        r.command@ == command@,
        r.tool_name@ == tool_name@,
        r.target_type@ == target_type@,
        crate::text::opt_string_view(r.target_id) == opt_view(target_id),
        crate::text::opt_string_view(r.task_id) == opt_view(task_id),
        r.role@ == "admin"@,
        r.status == status,
        r.exit_code == if status == AuditEventStatus::Denied {
            1i32
        } else {
            0i32
        },
        r.duration_ms == 0,
        crate::text::opt_string_view(r.job_run_id) == audit_run_id_spec(payload, opt_view(env_run_id)),
        r.payload == payload,
{
    let job_run_id = audit_run_id(&payload, env_run_id);
    let target_id = match target_id {
        Some(t) => Some(copy_string(t)),
        None => None,
    };
    let task_id = match task_id {
        Some(t) => Some(copy_string(t)),
        None => None,
    };
    CoordinationAuditRow {
        execution_id_prefix: execution_id_prefix(command),
        command: copy_string(command),
        tool_name: copy_string(tool_name),
        target_type: copy_string(target_type),
        target_id,
        task_id,
        role: copy_string("admin"),
        status,
        exit_code: coordination_exit_code(status),
        duration_ms: 0,
        job_run_id,
        payload,
    }
}

/// The step index of the environment, when it parses as a number.
pub fn env_step_index(raw: Option<&str>) -> (r: Option<u32>)
    ensures
        r == match raw {
            Some(s) => parse_u32(s@),
            None => None,
        },
{
    match raw {
        Some(s) => {
            let cs = chars_of(s);
            parse_u32_chars(cs.as_slice())
        },
        None => None,
    }
}

/// What an authorization decision records, if anything: a denial always,
/// an allowed call only when the operator override let it through.
pub fn authorization_record(allowed: bool, through_override: bool, denial: &str) -> (r: Option<
    (AuditEventStatus, String),
>)
    ensures
        !allowed ==> (r matches Some((s, m)) && s == AuditEventStatus::Denied && m@ == denial@),
        allowed && through_override ==> (r matches Some((s, m)) && s == AuditEventStatus::Success
            && m@ == "authorized through the operator override"@),
        allowed && !through_override ==> r is None,
{
    if !allowed {
        Some((AuditEventStatus::Denied, copy_string(denial)))
    } else if through_override {
        Some((AuditEventStatus::Success, copy_string("authorized through the operator override")))
    } else {
        None
    }
}

/// The kinds of redaction applied to an artifact field.
#[derive(Debug, Clone, Copy, PartialEq, Eq, Structural)]
pub enum ArtifactRedactionKind {
    Env,
    Pattern,
    HomeDir,
}

impl ArtifactRedactionKind {
    pub open spec fn name(self) -> Seq<char> {
        match self {
            ArtifactRedactionKind::Env => "env"@,
            ArtifactRedactionKind::Pattern => "pattern"@,
            ArtifactRedactionKind::HomeDir => "home_dir"@,
        }
    }

    pub fn as_str(self) -> (r: &'static str)
        ensures
            r@ == self.name(),
    {
        match self {
            ArtifactRedactionKind::Env => "env",
            ArtifactRedactionKind::Pattern => "pattern",
            ArtifactRedactionKind::HomeDir => "home_dir",
        }
    }
}

/// A field after redaction, with the kinds of redaction that changed it.
#[derive(Debug)]
pub struct SanitizedArtifactField {
    pub field: String,
    pub value: String,
    pub kinds: Vec<ArtifactRedactionKind>,
}

/// The kinds a free-text field went through, given the text after each
/// stage: sensitive environment values, then every known pattern, then the
/// home directory.
pub open spec fn free_text_kinds(
    input: Seq<char>,
    env_scrubbed: Seq<char>,
    all_scrubbed: Seq<char>,
    home_scrubbed: Seq<char>,
) -> Seq<ArtifactRedactionKind> {
    let a = if env_scrubbed != input {
        seq![ArtifactRedactionKind::Env]
    } else {
        Seq::empty()
    };
    let b = if all_scrubbed != env_scrubbed {
        a.push(ArtifactRedactionKind::Pattern)
    } else {
        a
    };
    if home_scrubbed != all_scrubbed {
        b.push(ArtifactRedactionKind::HomeDir)
    } else {
        b
    }
}

/// Sanitizes a free-text field from the outputs of the redaction stages;
/// a whole value that is a credential token and no environment value is
/// refused rather than redacted.
pub fn sanitize_free_text_field(
    field: &str,
    input: &str,
    env_scrubbed: String,
    all_scrubbed: &str,
    home_scrubbed: String,
    credential_token: bool,
) -> (r: Result<SanitizedArtifactField, OrbitError>)
    ensures
        (env_scrubbed@ == input@ && credential_token) ==> (r matches Err(OrbitError::SensitiveInput(m))
            && m@ == "`"@ + field@
            + "` is a complete credential token; remove it or embed only non-sensitive context"@),
        !(env_scrubbed@ == input@ && credential_token) ==> (r matches Ok(f) && f.field@ == field@
            && f.value@ == home_scrubbed@ && f.kinds@ == free_text_kinds(
            input@,
            env_scrubbed@,
            all_scrubbed@,
            home_scrubbed@,
        )),
{
    let env_same = crate::text::str_eq(env_scrubbed.as_str(), input);
    if env_same && credential_token {
        let mut m = copy_string("`");
        push_str(&mut m, field);
        push_str(&mut m, "` is a complete credential token; remove it or embed only non-sensitive context");
        return Err(OrbitError::SensitiveInput(m));
    }
    let mut kinds: Vec<ArtifactRedactionKind> = Vec::new();
    if !env_same {
        kinds.push(ArtifactRedactionKind::Env);
    }
    if !crate::text::str_eq(all_scrubbed, env_scrubbed.as_str()) {
        kinds.push(ArtifactRedactionKind::Pattern);
    }
    if !crate::text::str_eq(home_scrubbed.as_str(), all_scrubbed) {
        kinds.push(ArtifactRedactionKind::HomeDir);
    }
    assert(kinds@ =~= free_text_kinds(input@, env_scrubbed@, all_scrubbed@, home_scrubbed@));
    Ok(SanitizedArtifactField { field: copy_string(field), value: home_scrubbed, kinds })
}

/// Sanitizes a path field from its text with the home directory redacted.
pub fn sanitize_path_field(field: &str, input: &str, home_scrubbed: String) -> (r: SanitizedArtifactField)
    ensures
        r.field@ == field@,
        r.value@ == home_scrubbed@,
        r.kinds@ == if home_scrubbed@ != input@ {
            seq![ArtifactRedactionKind::HomeDir]
        } else {
            Seq::empty()
        },
{
    let mut kinds: Vec<ArtifactRedactionKind> = Vec::new();
    if !crate::text::str_eq(home_scrubbed.as_str(), input) {
        kinds.push(ArtifactRedactionKind::HomeDir);
    }
    assert(kinds@ =~= if home_scrubbed@ != input@ {
        seq![ArtifactRedactionKind::HomeDir]
    } else {
        Seq::<ArtifactRedactionKind>::empty()
    });
    SanitizedArtifactField { field: copy_string(field), value: home_scrubbed, kinds }
}

/// The fields of one artifact that redaction changed, in order.
#[derive(Debug)]
pub struct ArtifactRedactionReport {
    pub fields: Vec<(String, Vec<ArtifactRedactionKind>)>,
}

impl ArtifactRedactionReport {
    pub fn new() -> (r: ArtifactRedactionReport)
        ensures
            r.fields@.len() == 0,
    {
        ArtifactRedactionReport { fields: Vec::new() }
    }

    /// Records the field when redaction changed it and hands back its value.
    pub fn absorb(&mut self, field: SanitizedArtifactField) -> (v: String)
        ensures
            v@ == field.value@,
            field.kinds@.len() > 0 ==> final(self).fields@.len() == old(self).fields@.len() + 1
                && final(self).fields@.last().0@ == field.field@ && final(self).fields@.last().1@
                == field.kinds@ && final(self).fields@.drop_last() == old(self).fields@,
            field.kinds@.len() == 0 ==> final(self).fields@ == old(self).fields@,
    {
        let SanitizedArtifactField { field: name, value, kinds } = field;
        if kinds.len() > 0 {
            self.fields.push((name, kinds));
            assert(self.fields@.drop_last() =~= old(self).fields@);
        }
        value
    }

    pub fn applied(&self) -> (b: bool)
        ensures
            b == (self.fields@.len() > 0),
    {
        self.fields.len() > 0
    }
}

/// Changing a field's value leaves every other name's lookup alone.
pub proof fn lemma_field_from_update(
    f: Seq<(String, JsonValue)>,
    i: int,
    e: (String, JsonValue),
    k: Seq<char>,
    m: int,
)
    requires
        0 <= i < f.len(),
        e.0@ == f[i].0@,
        k != f[i].0@,
        0 <= m,
    ensures
        field_from(f.update(i, e), k, m) == field_from(f, k, m),
    decreases f.len() - m,
{
    if m < f.len() {
        lemma_field_from_update(f, i, e, k, m + 1);
    }
}

/// The first field named `k` at or after `m`, when none before `i` is.
pub proof fn lemma_field_from_first(f: Seq<(String, JsonValue)>, k: Seq<char>, i: int, m: int)
    requires
        0 <= m <= i < f.len(),
        f[i].0@ == k,
        forall|j: int| 0 <= j < i ==> (#[trigger] f[j]).0@ != k,
    ensures
        field_from(f, k, m) == Some(f[i].1),
    decreases i - m,
{
    if m < i {
        lemma_field_from_first(f, k, i, m + 1);
    }
}

/// Appending a field leaves the lookups of other names alone.
pub proof fn lemma_field_from_push(f: Seq<(String, JsonValue)>, e: (String, JsonValue), k: Seq<char>, m: int)
    requires
        k != e.0@,
        0 <= m,
    ensures
        field_from(f.push(e), k, m) == field_from(f, k, m),
    decreases f.len() + 1 - m,
{
    if m < f.len() {
        lemma_field_from_push(f, e, k, m + 1);
        assert(f.push(e)[m] == f[m]);
    } else if m == f.len() {
        assert(f.push(e)[m] == e);
        assert(field_from(f.push(e), k, m + 1) is None);
    }
}

/// Sets `key` of an object to `value`, replacing the field of that name or
/// adding it; anything but an object is left as it is.
pub fn insert_field(obj: &mut JsonValue, key: &str, value: JsonValue)
    ensures
        match *old(obj) {
            JsonValue::Object(_) => {
                &&& *final(obj) is Object
                &&& json_get(*final(obj), key@) == Some(value)
                &&& forall|k: Seq<char>| k != key@ ==> json_get(*final(obj), k) == json_get(*old(obj), k)
            },
            _ => *final(obj) == *old(obj),
        },
{
    match obj {
        JsonValue::Object(fields) => {
            let ghost before = fields@;
            let mut found: Option<usize> = None;
            let mut i: usize = 0;
            while i < fields.len()
                invariant_except_break
                    found is None,
                invariant
                    i <= fields.len(),
                    fields@ == before,
                    forall|j: int| 0 <= j < i ==> (#[trigger] fields@[j]).0@ != key@,
                ensures
                    match found {
                        Some(at) => at < fields.len() && fields@[at as int].0@ == key@ && forall|j: int|
                            0 <= j < at ==> (#[trigger] fields@[j]).0@ != key@,
                        None => forall|j: int| 0 <= j < fields.len() ==> (#[trigger] fields@[j]).0@ != key@,
                    },
                decreases fields.len() - i,
            {
                if crate::text::str_eq(fields[i].0.as_str(), key) {
                    found = Some(i);
                    break;
                }
                i += 1;
            }
            let entry = (copy_string(key), value);
            let ghost e = entry;
            match found {
                Some(at) => {
                    fields.set(at, entry);
                    proof {
                        let nf = before.update(at as int, e);
                        assert(fields@ == nf);
                        assert forall|j: int| 0 <= j < at implies (#[trigger] nf[j]).0@ != key@ by {
                            assert(nf[j] == before[j]);
                        }
                        lemma_field_from_first(nf, key@, at as int, 0);
                        assert forall|k: Seq<char>| k != key@ implies field_from(nf, k, 0) == field_from(before, k, 0) by {
                            lemma_field_from_update(before, at as int, e, k, 0);
                        }
                    }
                },
                None => {
                    fields.push(entry);
                    proof {
                        let nf = before.push(e);
                        assert(fields@ == nf);
                        assert forall|j: int| 0 <= j < before.len() implies (#[trigger] nf[j]).0@ != key@ by {
                            assert(nf[j] == before[j]);
                        }
                        lemma_field_from_first(nf, key@, before.len() as int, 0);
                        assert forall|k: Seq<char>| k != key@ implies field_from(nf, k, 0) == field_from(before, k, 0) by {
                            lemma_field_from_push(before, e, k, 0);
                        }
                    }
                },
            }
        },
        _ => {},
    }
}

/// A tool response flagged with whether redaction changed any field.
pub fn redactions_flagged(value: JsonValue, report: &ArtifactRedactionReport) -> (r: JsonValue)
    ensures
        match value {
            JsonValue::Object(_) => {
                &&& r is Object
                &&& json_get(r, "redactions_applied"@) == Some(JsonValue::Bool(report.fields@.len() > 0))
                &&& forall|k: Seq<char>| k != "redactions_applied"@ ==> json_get(r, k) == json_get(value, k)
            },
            _ => r == value,
        },
{
    let mut v = value;
    insert_field(&mut v, "redactions_applied", JsonValue::Bool(report.applied()));
    v
}

} // verus!
