//! Artifact auto-publication: which repository paths an ADR or learning
//! change touches, the commit message that records it, and how the git
//! steps that publish it are judged.
use vstd::prelude::*;

use crate::decimal::{dec_digits, push_digits};
use crate::error::OrbitError;
use crate::json::{JsonValue, get_str, json_get, str_field};
use crate::session_log::{join_path, path_join};
use crate::sorted::{insert_all, strictly_sorted};
use crate::text::{
    ascii_lower, chars_of, contains, copy_string, is_ws, push_str, str_contains, string_of_range,
    str_eq, strings_view, to_ascii_lower, trim, trimmed, ws_char,
};

verus! {

/// `.orbit/adrs/{status}/{id}/adr.yaml`.
pub open spec fn adr_doc_path_spec(status: Seq<char>, id: Seq<char>) -> Seq<char> {
    ".orbit/adrs/"@ + status + "/"@ + id + "/adr.yaml"@
}

/// `.orbit/adrs/{status}/{id}/body.md`.
pub open spec fn adr_body_path_spec(status: Seq<char>, id: Seq<char>) -> Seq<char> {
    ".orbit/adrs/"@ + status + "/"@ + id + "/body.md"@
}

/// `.orbit/learnings/{id}/learning.yaml`.
pub open spec fn learning_doc_path_spec(id: Seq<char>) -> Seq<char> {
    ".orbit/learnings/"@ + id + "/learning.yaml"@
}

/// `.orbit/learnings/{id}/comments.jsonl`.
pub open spec fn learning_comments_path_spec(id: Seq<char>) -> Seq<char> {
    ".orbit/learnings/"@ + id + "/comments.jsonl"@
}

pub fn adr_doc_path(status: &str, id: &str) -> (p: String)
    ensures
        p@ == adr_doc_path_spec(status@, id@),
{
    let mut p = copy_string(".orbit/adrs/");
    push_str(&mut p, status);
    push_str(&mut p, "/");
    push_str(&mut p, id);
    push_str(&mut p, "/adr.yaml");
    p
}

pub fn adr_body_path(status: &str, id: &str) -> (p: String)
    ensures
        p@ == adr_body_path_spec(status@, id@),
{
    let mut p = copy_string(".orbit/adrs/");
    push_str(&mut p, status);
    push_str(&mut p, "/");
    push_str(&mut p, id);
    push_str(&mut p, "/body.md");
    p
}

pub fn learning_doc_path(id: &str) -> (p: String)
    ensures
        p@ == learning_doc_path_spec(id@),
{
    let mut p = copy_string(".orbit/learnings/");
    push_str(&mut p, id);
    push_str(&mut p, "/learning.yaml");
    p
}

pub fn learning_comments_path(id: &str) -> (p: String)
    ensures
        p@ == learning_comments_path_spec(id@),
{
    let mut p = copy_string(".orbit/learnings/");
    push_str(&mut p, id);
    push_str(&mut p, "/comments.jsonl");
    p
}

/// `s.split_whitespace().collect::<Vec<_>>().join(" ")`: the words of `s`
/// separated by single spaces.
pub open spec fn collapse_ws(s: Seq<char>) -> Seq<char>
    decreases s.len(),
{
    if s.len() == 0 {
        Seq::empty()
    } else {
        let c = s.last();
        let rest = collapse_ws(s.drop_last());
        if is_ws(c) {
            rest
        } else if s.len() >= 2 && is_ws(s[s.len() - 2]) && rest.len() > 0 {
            rest.push(' ').push(c)
        } else {
            rest.push(c)
        }
    }
}

/// The one-line commit summary: whitespace collapsed, `artifact update`
/// when nothing is left, at most 96 characters.
pub open spec fn commit_summary(s: Seq<char>) -> Seq<char> {
    let c = collapse_ws(s);
    let v = if c.len() == 0 {
        "artifact update"@
    } else {
        c
    };
    if v.len() <= 96 {
        v
    } else {
        v.take(96)
    }
}

pub fn sanitize_commit_summary(summary: &str) -> (out: String)
    ensures
        out@ == commit_summary(summary@),
{
    let cs = chars_of(summary);
    let mut collapsed: Vec<char> = Vec::new();
    let mut i: usize = 0;
    while i < cs.len()
        invariant
            i <= cs.len(),
            cs@ == summary@,
            collapsed@ == collapse_ws(cs@.take(i as int)),
        decreases cs.len() - i,
    {
        let c = cs[i];
        proof {
            let t = cs@.take(i + 1);
            assert(t.drop_last() =~= cs@.take(i as int));
            assert(t.last() == c);
            if i >= 1 {
                assert(t[t.len() - 2] == cs@[i - 1]);
            }
        }
        if ws_char(c) {
        } else if i >= 1 && ws_char(cs[i - 1]) && collapsed.len() > 0 {
            collapsed.push(' ');
            collapsed.push(c);
        } else {
            collapsed.push(c);
        }
        i += 1;
    }
    assert(cs@.take(cs.len() as int) =~= cs@);
    let value: Vec<char> = if collapsed.len() == 0 {
        chars_of("artifact update")
    } else {
        collapsed
    };
    let n: usize = if value.len() <= 96 {
        value.len()
    } else {
        96
    };
    assert(value@.subrange(0, value.len() as int) =~= value@);
    string_of_range(value.as_slice(), 0, n)
}

/// The trimmed text of the first non-blank line of `s` (lines end at
/// `'\n'`), scanning the line that starts at `start` from position `i`.
pub open spec fn first_line_from(s: Seq<char>, start: int, i: int) -> Option<Seq<char>>
    decreases s.len() - i,
{
    if i >= s.len() {
        let l = trim(s.subrange(start, s.len() as int));
        if l.len() > 0 {
            Some(l)
        } else {
            None
        }
    } else if s[i] == '\n' {
        let l = trim(s.subrange(start, i));
        if l.len() > 0 {
            Some(l)
        } else {
            first_line_from(s, i + 1, i + 1)
        }
    } else {
        first_line_from(s, start, i + 1)
    }
}

/// The first non-blank line of `raw`, trimmed, else `fallback`.
pub open spec fn summary_text(raw: Option<Seq<char>>, fallback: Seq<char>) -> Seq<char> {
    match raw {
        Some(s) => match first_line_from(s, 0, 0) {
            Some(l) => l,
            None => fallback,
        },
        None => fallback,
    }
}

/// The first non-blank line of `text`, trimmed.
pub fn first_nonblank_line(text: &str) -> (r: Option<String>)
    ensures
        match first_line_from(text@, 0, 0) {
            Some(l) => r is Some && r->0@ == l,
            None => r is None,
        },
{
    let cs = chars_of(text);
    let mut start: usize = 0;
    let mut i: usize = 0;
    while i < cs.len()
        invariant
            start <= i <= cs.len(),
            cs@ == text@,
            first_line_from(cs@, start as int, i as int) == first_line_from(cs@, 0, 0),
        decreases cs.len() - i,
    {
        if cs[i] == '\n' {
            let line = string_of_range(cs.as_slice(), start, i);
            let t = trimmed(line.as_str());
            if !t.as_str().is_empty() {
                return Some(t);
            }
            start = i + 1;
        }
        i += 1;
    }
    let line = string_of_range(cs.as_slice(), start, cs.len());
    let t = trimmed(line.as_str());
    if !t.as_str().is_empty() {
        Some(t)
    } else {
        None
    }
}

pub fn summary_from_text(raw: Option<&str>, fallback: &str) -> (out: String)
    ensures
        out@ == summary_text(
            match raw {
                Some(r) => Some(r@),
                None => None,
            },
            fallback@,
        ),
{
    match raw {
        Some(text) => match first_nonblank_line(text) {
            Some(l) => l,
            None => copy_string(fallback),
        },
        None => copy_string(fallback),
    }
}

/// A `..` segment between slashes.
pub open spec fn has_parent_segment(p: Seq<char>) -> bool {
    exists|k: int| #[trigger] parent_segment_at(p, k)
}

pub open spec fn parent_segment_at(p: Seq<char>, k: int) -> bool {
    &&& 0 <= k
    &&& k + 2 <= p.len()
    &&& p[k] == '.'
    &&& p[k + 1] == '.'
    &&& (k == 0 || p[k - 1] == '/')
    &&& (k + 2 == p.len() || p[k + 2] == '/')
}

/// Only relative paths without `..` under `.orbit/adrs/` or
/// `.orbit/learnings/` are published.
pub open spec fn artifact_path_check(p: Seq<char>) -> Result<(), Seq<char>> {
    if (p.len() > 0 && p[0] == '/') || has_parent_segment(p) {
        Err("refusing to auto-publish unsafe artifact path '"@ + p + "'"@)
    } else if !(crate::text::starts_with(p, ".orbit/adrs/"@) || crate::text::starts_with(
        p,
        ".orbit/learnings/"@,
    )) {
        Err("refusing to auto-publish non-artifact path '"@ + p + "'"@)
    } else {
        Ok(())
    }
}

fn quoted_error(prefix: &str, p: &str) -> (e: OrbitError)
    ensures
        e == OrbitError::Execution(e->Execution_0),
        e->Execution_0@ == prefix@ + p@ + "'"@,
{
    let mut m = copy_string(prefix);
    push_str(&mut m, p);
    push_str(&mut m, "'");
    OrbitError::Execution(m)
}

pub fn validate_artifact_path(path: &str) -> (r: Result<(), OrbitError>)
    ensures
        match artifact_path_check(path@) {
            Ok(()) => r is Ok,
            Err(m) => r matches Err(OrbitError::Execution(x)) && x@ == m,
        },
{
    let cs = chars_of(path);
    let n = cs.len();
    let mut unsafe_path = n > 0 && cs[0] == '/';
    let mut k: usize = 0;
    while n >= 2 && k <= n - 2 && !unsafe_path
        invariant
            cs@ == path@,
            n == cs.len(),
            unsafe_path ==> (n > 0 && cs@[0] == '/') || has_parent_segment(cs@),
            !unsafe_path ==> !(n > 0 && cs@[0] == '/') && forall|j: int| 0 <= j < k ==> !parent_segment_at(cs@, j),
        decreases n + 2 - k,
    {
        if cs[k] == '.' && cs[k + 1] == '.' && (k == 0 || cs[k - 1] == '/') && (k + 2 == n || cs[k
            + 2] == '/') {
            assert(parent_segment_at(cs@, k as int));
            unsafe_path = true;
        }
        k += 1;
    }
    if unsafe_path {
        return Err(quoted_error("refusing to auto-publish unsafe artifact path '", path));
    }
    assert(!has_parent_segment(cs@)) by {
        assert forall|j: int| !parent_segment_at(cs@, j) by {
            if j >= k && j + 2 <= n {
                assert(unsafe_path || !(n >= 2 && k <= n - 2));
            }
        }
    }
    if !(crate::text::str_starts_with(path, ".orbit/adrs/") || crate::text::str_starts_with(
        path,
        ".orbit/learnings/",
    )) {
        return Err(quoted_error("refusing to auto-publish non-artifact path '", path));
    }
    Ok(())
}

/// The message of a response that lacks a string field.
pub open spec fn missing_field(field: Seq<char>) -> Seq<char> {
    "auto-publish response missing `"@ + field + "`"@
}

/// `value.get(field).and_then(Value::as_str)`, or the missing-field error.
pub fn string_field(value: &JsonValue, field: &str) -> (r: Result<String, OrbitError>)
    ensures
        match str_field(*value, field@) {
            Some(t) => r matches Ok(x) && x@ == t,
            None => r matches Err(OrbitError::Execution(m)) && m@ == missing_field(field@),
        },
{
    match get_str(value, field) {
        Some(t) => Ok(copy_string(t.as_str())),
        None => {
            let mut m = copy_string("auto-publish response missing `");
            push_str(&mut m, field);
            push_str(&mut m, "`");
            Err(OrbitError::Execution(m))
        },
    }
}

/// The first of `keys`, from position `i`, that names a string field.
pub open spec fn first_str_field(v: JsonValue, keys: Seq<&str>, i: int) -> Option<Seq<char>>
    decreases keys.len() - i,
{
    if i < 0 || i >= keys.len() {
        None
    } else {
        match str_field(v, keys[i]@) {
            Some(t) => Some(t),
            None => first_str_field(v, keys, i + 1),
        }
    }
}

/// The string value of the first of `keys` that holds one.
pub fn input_string(input: &JsonValue, keys: &[&str]) -> (r: Option<String>)
    ensures
        match first_str_field(*input, keys@, 0) {
            Some(t) => r matches Some(x) && x@ == t,
            None => r is None,
        },
{
    let mut i: usize = 0;
    while i < keys.len()
        invariant
            i <= keys.len(),
            first_str_field(*input, keys@, i as int) == first_str_field(*input, keys@, 0),
        decreases keys.len() - i,
    {
        match get_str(input, keys[i]) {
            Some(t) => {
                return Some(copy_string(t.as_str()));
            },
            None => {},
        }
        i += 1;
    }
    None
}

/// What a git invocation produced.
#[derive(Debug)]
pub struct GitCommandOutput {
    pub code: i32,
    pub stdout: String,
    pub stderr: String,
}

/// The decimal text of an integer.
pub open spec fn int_text(i: int) -> Seq<char> {
    if i < 0 {
        seq!['-'] + dec_digits((-i) as nat)
    } else {
        dec_digits(i as nat)
    }
}

pub fn i32_text(i: i32) -> (s: String)
    ensures
        s@ == int_text(i as int),
{
    let mut cs: Vec<char> = Vec::new();
    if i < 0 {
        cs.push('-');
        let m: u32 = (0i64 - i as i64) as u32;
        push_digits(&mut cs, m);
    } else {
        push_digits(&mut cs, i as u32);
    }
    crate::text::string_of(cs.as_slice())
}

/// `stdout`, a newline and `stderr`, lower-cased in ASCII.
pub open spec fn combined_lower(o: GitCommandOutput) -> Seq<char> {
    ascii_lower(o.stdout@ + seq!['\n'] + o.stderr@)
}

/// The trimmed `stderr`, else the trimmed `stdout`, else the exit status.
pub open spec fn output_summary(o: GitCommandOutput) -> Seq<char> {
    if trim(o.stderr@).len() > 0 {
        trim(o.stderr@)
    } else if trim(o.stdout@).len() > 0 {
        trim(o.stdout@)
    } else {
        "git exited with status "@ + int_text(o.code as int)
    }
}

/// The push was refused because the remote moved on.
pub open spec fn non_fast_forward(o: GitCommandOutput) -> bool {
    let c = combined_lower(o);
    contains(c, "non-fast-forward"@) || contains(c, "fetch first"@) || contains(c, "stale info"@)
}

fn combined_lower_text(stdout: &str, stderr: &str) -> (r: String)
    ensures
        r@ == ascii_lower(stdout@ + seq!['\n'] + stderr@),
{
    let mut c = copy_string(stdout);
    proof {
        reveal_strlit("\n");
    }
    push_str(&mut c, "\n");
    push_str(&mut c, stderr);
    to_ascii_lower(c.as_str())
}

impl GitCommandOutput {
    pub fn success(&self) -> (b: bool)
        ensures
            b == (self.code == 0),
    {
        self.code == 0
    }

    pub fn summary(&self) -> (r: String)
        ensures
            r@ == output_summary(*self),
    {
        let e = trimmed(self.stderr.as_str());
        if !e.as_str().is_empty() {
            return e;
        }
        let o = trimmed(self.stdout.as_str());
        if !o.as_str().is_empty() {
            return o;
        }
        let mut m = copy_string("git exited with status ");
        let code = i32_text(self.code);
        push_str(&mut m, code.as_str());
        m
    }

    pub fn is_non_fast_forward(&self) -> (b: bool)
        ensures
            b == non_fast_forward(*self),
    {
        let c = combined_lower_text(self.stdout.as_str(), self.stderr.as_str());
        str_contains(c.as_str(), "non-fast-forward") || str_contains(c.as_str(), "fetch first")
            || str_contains(c.as_str(), "stale info")
    }
}

/// A failed git step and what it printed.
#[derive(Debug)]
pub struct GitFailure {
    pub phase: String,
    pub output: GitCommandOutput,
}

/// The index was locked by another git process.
pub open spec fn index_locked(o: GitCommandOutput) -> bool {
    let c = combined_lower(o);
    contains(c, "index.lock"@) || contains(c, "unable to create"@) || contains(
        c,
        "another git process"@,
    )
}

/// `auto-publish {phase} failed: {summary}`.
pub open spec fn failure_message(phase: Seq<char>, o: GitCommandOutput) -> Seq<char> {
    "auto-publish "@ + phase + " failed: "@ + output_summary(o)
}

impl GitFailure {
    /// A failure that git did not print: exit code 1, `message` on stderr.
    pub fn message(phase: &str, message: &str) -> (f: GitFailure)
        ensures
            f.phase@ == phase@,
            f.output.code == 1,
            f.output.stdout@ == Seq::<char>::empty(),
            f.output.stderr@ == message@,
    {
        GitFailure {
            phase: copy_string(phase),
            output: GitCommandOutput { code: 1, stdout: String::new(), stderr: copy_string(message) },
        }
    }

    pub fn is_index_lock(&self) -> (b: bool)
        ensures
            b == index_locked(self.output),
    {
        let c = combined_lower_text(self.output.stdout.as_str(), self.output.stderr.as_str());
        str_contains(c.as_str(), "index.lock") || str_contains(c.as_str(), "unable to create")
            || str_contains(c.as_str(), "another git process")
    }

    pub fn into_orbit_error(self) -> (e: OrbitError)
        ensures
            e matches OrbitError::Execution(m) && m@ == failure_message(self.phase@, self.output),
    {
        let mut m = copy_string("auto-publish ");
        push_str(&mut m, self.phase.as_str());
        push_str(&mut m, " failed: ");
        let summary = self.output.summary();
        push_str(&mut m, summary.as_str());
        OrbitError::Execution(m)
    }
}

/// The tool actions whose artifacts are published after they succeed.
#[derive(Debug, Clone, Copy, PartialEq, Eq, Structural)]
pub enum ArtifactAction {
    AdrAdd,
    AdrUpdate,
    AdrSupersede,
    LearningAdd,
    LearningUpdate,
    LearningSupersede,
    LearningCommentAdd,
    LearningCommentDelete,
    /// Any other tool action.
    Other,
}

pub fn is_auto_publish_action(action: ArtifactAction) -> (b: bool)
    ensures
        b == (action != ArtifactAction::Other),
{
    !matches!(action, ArtifactAction::Other)
}

/// The ADR status directories, in the order they are searched.
pub open spec fn adr_status(k: int) -> Seq<char> {
    if k == 0 {
        "proposed"@
    } else if k == 1 {
        "accepted"@
    } else if k == 2 {
        "superseded"@
    } else {
        "deleted"@
    }
}

fn adr_status_name(k: usize) -> (r: &'static str)
    requires
        k < 4,
    ensures
        r@ == adr_status(k as int),
{
    if k == 0 {
        "proposed"
    } else if k == 1 {
        "accepted"
    } else if k == 2 {
        "superseded"
    } else {
        "deleted"
    }
}

/// The ADR document path of `id` under each status directory; the caller
/// checks which of them exist.
pub fn adr_doc_candidates(id: &str) -> (r: Vec<String>)
    ensures
        r@.len() == 4,
        forall|k: int| 0 <= k < 4 ==> (#[trigger] r@[k])@ == adr_doc_path_spec(adr_status(k), id@),
{
    let mut r: Vec<String> = Vec::new();
    let mut k: usize = 0;
    while k < 4
        invariant
            k <= 4,
            r@.len() == k,
            forall|j: int| 0 <= j < k ==> (#[trigger] r@[j])@ == adr_doc_path_spec(adr_status(j), id@),
        decreases 4 - k,
    {
        r.push(adr_doc_path(adr_status_name(k), id));
        k += 1;
    }
    r
}

/// The document and body paths of the statuses, among the first `k`,
/// whose document exists (`present[k]`).
pub open spec fn existing_adr_spec(id: Seq<char>, present: Seq<bool>, k: int) -> Seq<Seq<char>>
    decreases k,
{
    if k <= 0 {
        Seq::empty()
    } else {
        let before = existing_adr_spec(id, present, k - 1);
        if present[k - 1] {
            before.push(adr_doc_path_spec(adr_status(k - 1), id)).push(
                adr_body_path_spec(adr_status(k - 1), id),
            )
        } else {
            before
        }
    }
}

/// The bundle paths of ADR `id` in every status directory where its
/// document exists.
pub fn existing_adr_paths(id: &str, present: &Vec<bool>) -> (r: Vec<String>)
    requires
        present.len() == 4,
    ensures
        strings_view(r@) == existing_adr_spec(id@, present@, 4),
{
    let mut r: Vec<String> = Vec::new();
    let mut k: usize = 0;
    while k < 4
        invariant
            k <= 4,
            present.len() == 4,
            strings_view(r@) == existing_adr_spec(id@, present@, k as int),
        decreases 4 - k,
    {
        if present[k] {
            r.push(adr_doc_path(adr_status_name(k), id));
            r.push(adr_body_path(adr_status_name(k), id));
        }
        k += 1;
        assert(strings_view(r@) =~= existing_adr_spec(id@, present@, k as int));
    }
    r
}

/// The new ADR named by a supersede request, `unknown` when it names none.
pub open spec fn superseding_id(input: JsonValue) -> Seq<char> {
    match first_str_field(input, seq!["new_id", "new", "newId"], 0) {
        Some(t) => t,
        None => "unknown"@,
    }
}

pub fn superseding_adr_id(input: &JsonValue) -> (r: String)
    ensures
        r@ == superseding_id(*input),
{
    let keys: [&str; 3] = ["new_id", "new", "newId"];
    assert(keys@ == seq!["new_id", "new", "newId"]);
    match input_string(input, keys.as_slice()) {
        Some(t) => t,
        None => copy_string("unknown"),
    }
}

/// What a publication records: tool name, commit verb, artifact id, summary
/// text and the artifact paths the change wrote.
pub type PlanParts = (Seq<char>, Seq<char>, Seq<char>, Seq<char>, Seq<Seq<char>>);

/// The parts of an ADR add or update: both files of its bundle under its
/// current status.
pub open spec fn adr_parts(response: JsonValue, tool: Seq<char>, verb: Seq<char>) -> Result<PlanParts, Seq<char>> {
    match str_field(response, "id"@) {
        None => Err(missing_field("id"@)),
        Some(id) => match str_field(response, "status"@) {
            None => Err(missing_field("status"@)),
            Some(st) => match str_field(response, "title"@) {
                None => Err(missing_field("title"@)),
                Some(title) => Ok(
                    (tool, verb, id, title, seq![adr_doc_path_spec(st, id), adr_body_path_spec(st, id)]),
                ),
            },
        },
    }
}

/// The parts of a learning add or update: its document.
pub open spec fn learning_parts(response: JsonValue, tool: Seq<char>, verb: Seq<char>) -> Result<PlanParts, Seq<char>> {
    match str_field(response, "id"@) {
        None => Err(missing_field("id"@)),
        Some(id) => match str_field(response, "summary"@) {
            None => Err(missing_field("summary"@)),
            Some(summary) => Ok((tool, verb, id, summary, seq![learning_doc_path_spec(id)])),
        },
    }
}

/// The parts of the publication that follows `action`, read from the tool's
/// response and input; `learning` is the learning a deleted comment
/// belonged to, as found before the deletion.
pub open spec fn plan_parts(
    action: ArtifactAction,
    response: JsonValue,
    input: JsonValue,
    learning: Option<Seq<char>>,
) -> Result<PlanParts, Seq<char>> {
    match action {
        ArtifactAction::AdrAdd => adr_parts(response, "orbit.adr.add"@, "Add ADR"@),
        ArtifactAction::AdrUpdate => adr_parts(response, "orbit.adr.update"@, "Update ADR"@),
        ArtifactAction::AdrSupersede => match str_field(response, "id"@) {
            None => Err(missing_field("id"@)),
            Some(old_id) => Ok(
                (
                    "orbit.adr.supersede"@,
                    "Supersede ADR"@,
                    old_id,
                    "with "@ + superseding_id(input),
                    Seq::empty(),
                ),
            ),
        },
        ArtifactAction::LearningAdd => learning_parts(response, "orbit.learning.add"@, "Add learning"@),
        ArtifactAction::LearningUpdate => learning_parts(
            response,
            "orbit.learning.update"@,
            "Update learning"@,
        ),
        ArtifactAction::LearningSupersede => match json_get(response, "old"@) {
            None => Err("learning supersede response missing old"@),
            Some(old) => match json_get(response, "new"@) {
                None => Err("learning supersede response missing new"@),
                Some(new) => match str_field(old, "id"@) {
                    None => Err(missing_field("id"@)),
                    Some(old_id) => match str_field(new, "id"@) {
                        None => Err(missing_field("id"@)),
                        Some(new_id) => Ok(
                            (
                                "orbit.learning.supersede"@,
                                "Supersede learning"@,
                                old_id,
                                "with "@ + new_id,
                                seq![learning_doc_path_spec(old_id), learning_doc_path_spec(new_id)],
                            ),
                        ),
                    },
                },
            },
        },
        ArtifactAction::LearningCommentAdd => match str_field(response, "id"@) {
            None => Err(missing_field("id"@)),
            Some(id) => match str_field(response, "learning_id"@) {
                None => Err(missing_field("learning_id"@)),
                Some(lid) => Ok(
                    (
                        "orbit.learning.comment.add"@,
                        "Add learning comment"@,
                        id,
                        summary_text(first_str_field(input, seq!["body"], 0), lid),
                        seq![learning_comments_path_spec(lid)],
                    ),
                ),
            },
        },
        ArtifactAction::LearningCommentDelete => match str_field(response, "id"@) {
            None => Err(missing_field("id"@)),
            Some(id) => match learning {
                None => Err("auto-publish could not resolve parent learning for comment "@ + id),
                Some(lid) => Ok(
                    (
                        "orbit.learning.comment.delete"@,
                        "Delete learning comment"@,
                        id,
                        lid,
                        seq![learning_comments_path_spec(lid)],
                    ),
                ),
            },
        },
        ArtifactAction::Other => Err("unsupported auto-publish action"@),
    }
}

fn adr_parts_exec(response: &JsonValue, tool: &str, verb: &str) -> (r: Result<
    (String, String, String, String, Vec<String>),
    OrbitError,
>)
    ensures
        match adr_parts(*response, tool@, verb@) {
            Ok(p) => r matches Ok(x) && x.0@ == p.0 && x.1@ == p.1 && x.2@ == p.2 && x.3@ == p.3
                && strings_view(x.4@) == p.4,
            Err(m) => r matches Err(OrbitError::Execution(x)) && x@ == m,
        },
{
    let id = match string_field(response, "id") {
        Ok(v) => v,
        Err(e) => {
            return Err(e);
        },
    };
    let status = match string_field(response, "status") {
        Ok(v) => v,
        Err(e) => {
            return Err(e);
        },
    };
    let title = match string_field(response, "title") {
        Ok(v) => v,
        Err(e) => {
            return Err(e);
        },
    };
    let mut paths: Vec<String> = Vec::new();
    paths.push(adr_doc_path(status.as_str(), id.as_str()));
    paths.push(adr_body_path(status.as_str(), id.as_str()));
    assert(strings_view(paths@) =~= seq![
        adr_doc_path_spec(status@, id@),
        adr_body_path_spec(status@, id@),
    ]);
    Ok((copy_string(tool), copy_string(verb), id, title, paths))
}

fn learning_parts_exec(response: &JsonValue, tool: &str, verb: &str) -> (r: Result<
    (String, String, String, String, Vec<String>),
    OrbitError,
>)
    ensures
        match learning_parts(*response, tool@, verb@) {
            Ok(p) => r matches Ok(x) && x.0@ == p.0 && x.1@ == p.1 && x.2@ == p.2 && x.3@ == p.3
                && strings_view(x.4@) == p.4,
            Err(m) => r matches Err(OrbitError::Execution(x)) && x@ == m,
        },
{
    let id = match string_field(response, "id") {
        Ok(v) => v,
        Err(e) => {
            return Err(e);
        },
    };
    let summary = match string_field(response, "summary") {
        Ok(v) => v,
        Err(e) => {
            return Err(e);
        },
    };
    let mut paths: Vec<String> = Vec::new();
    paths.push(learning_doc_path(id.as_str()));
    assert(strings_view(paths@) =~= seq![learning_doc_path_spec(id@)]);
    Ok((copy_string(tool), copy_string(verb), id, summary, paths))
}

fn prefixed(prefix: &str, rest: &str) -> (r: String)
    ensures
        r@ == prefix@ + rest@,
{
    let mut m = copy_string(prefix);
    push_str(&mut m, rest);
    m
}

/// The parts of the publication that follows `action`.
pub fn publish_plan_parts(
    action: ArtifactAction,
    response: &JsonValue,
    input: &JsonValue,
    learning: Option<&str>,
) -> (r: Result<(String, String, String, String, Vec<String>), OrbitError>)
    ensures
        match plan_parts(action, *response, *input, crate::text::opt_view(learning)) {
            Ok(p) => r matches Ok(x) && x.0@ == p.0 && x.1@ == p.1 && x.2@ == p.2 && x.3@ == p.3
                && strings_view(x.4@) == p.4,
            Err(m) => r matches Err(OrbitError::Execution(x)) && x@ == m,
        },
{
    match action {
        ArtifactAction::AdrAdd => adr_parts_exec(response, "orbit.adr.add", "Add ADR"),
        ArtifactAction::AdrUpdate => adr_parts_exec(response, "orbit.adr.update", "Update ADR"),
        ArtifactAction::AdrSupersede => {
            let old_id = match string_field(response, "id") {
                Ok(v) => v,
                Err(e) => {
                    return Err(e);
                },
            };
            let new_id = superseding_adr_id(input);
            let paths: Vec<String> = Vec::new();
            assert(strings_view(paths@) =~= Seq::<Seq<char>>::empty());
            Ok(
                (
                    copy_string("orbit.adr.supersede"),
                    copy_string("Supersede ADR"),
                    old_id,
                    prefixed("with ", new_id.as_str()),
                    paths,
                ),
            )
        },
        ArtifactAction::LearningAdd => learning_parts_exec(
            response,
            "orbit.learning.add",
            "Add learning",
        ),
        ArtifactAction::LearningUpdate => learning_parts_exec(
            response,
            "orbit.learning.update",
            "Update learning",
        ),
        ArtifactAction::LearningSupersede => {
            let old = match response.get("old") {
                Some(v) => v,
                None => {
                    return Err(
                        OrbitError::Execution(copy_string("learning supersede response missing old")),
                    );
                },
            };
            let new = match response.get("new") {
                Some(v) => v,
                None => {
                    return Err(
                        OrbitError::Execution(copy_string("learning supersede response missing new")),
                    );
                },
            };
            let old_id = match string_field(old, "id") {
                Ok(v) => v,
                Err(e) => {
                    return Err(e);
                },
            };
            let new_id = match string_field(new, "id") {
                Ok(v) => v,
                Err(e) => {
                    return Err(e);
                },
            };
            let mut paths: Vec<String> = Vec::new();
            paths.push(learning_doc_path(old_id.as_str()));
            paths.push(learning_doc_path(new_id.as_str()));
            assert(strings_view(paths@) =~= seq![
                learning_doc_path_spec(old_id@),
                learning_doc_path_spec(new_id@),
            ]);
            let summary = prefixed("with ", new_id.as_str());
            Ok(
                (
                    copy_string("orbit.learning.supersede"),
                    copy_string("Supersede learning"),
                    old_id,
                    summary,
                    paths,
                ),
            )
        },
        ArtifactAction::LearningCommentAdd => {
            let id = match string_field(response, "id") {
                Ok(v) => v,
                Err(e) => {
                    return Err(e);
                },
            };
            let lid = match string_field(response, "learning_id") {
                Ok(v) => v,
                Err(e) => {
                    return Err(e);
                },
            };
            let keys: [&str; 1] = ["body"];
            assert(keys@ == seq!["body"]);
            let body = input_string(input, keys.as_slice());
            let summary = match &body {
                Some(b) => summary_from_text(Some(b.as_str()), lid.as_str()),
                None => summary_from_text(None, lid.as_str()),
            };
            let mut paths: Vec<String> = Vec::new();
            paths.push(learning_comments_path(lid.as_str()));
            assert(strings_view(paths@) =~= seq![learning_comments_path_spec(lid@)]);
            Ok(
                (
                    copy_string("orbit.learning.comment.add"),
                    copy_string("Add learning comment"),
                    id,
                    summary,
                    paths,
                ),
            )
        },
        ArtifactAction::LearningCommentDelete => {
            let id = match string_field(response, "id") {
                Ok(v) => v,
                Err(e) => {
                    return Err(e);
                },
            };
            let lid = match learning {
                Some(l) => l,
                None => {
                    return Err(
                        OrbitError::Execution(
                            prefixed(
                                "auto-publish could not resolve parent learning for comment ",
                                id.as_str(),
                            ),
                        ),
                    );
                },
            };
            let mut paths: Vec<String> = Vec::new();
            paths.push(learning_comments_path(lid));
            assert(strings_view(paths@) =~= seq![learning_comments_path_spec(lid@)]);
            Ok(
                (
                    copy_string("orbit.learning.comment.delete"),
                    copy_string("Delete learning comment"),
                    id,
                    copy_string(lid),
                    paths,
                ),
            )
        },
        ArtifactAction::Other => Err(OrbitError::Execution(copy_string("unsupported auto-publish action"))),
    }
}

/// A publication: the tool that changed the artifacts, the artifact id,
/// the commit message and the artifact paths, sorted and distinct.
#[derive(Debug)]
pub struct PublishPlan {
    pub tool_name: String,
    pub artifact_id: String,
    pub commit_message: String,
    pub paths: Vec<String>,
}

/// `docs: {verb} {id} — {summary}` with the summary sanitized.
pub open spec fn commit_message_spec(verb: Seq<char>, id: Seq<char>, summary: Seq<char>) -> Seq<char> {
    "docs: "@ + verb + " "@ + id + " — "@ + commit_summary(summary)
}

/// A path the publication commits: one known before the action, one the
/// action wrote, or, for an ADR supersede, an existing bundle file of
/// either ADR.
pub open spec fn plan_path(
    action: ArtifactAction,
    pre: Seq<Seq<char>>,
    written: Seq<Seq<char>>,
    found: Seq<Seq<char>>,
    y: Seq<char>,
) -> bool {
    pre.contains(y) || written.contains(y) || (action == ArtifactAction::AdrSupersede
        && found.contains(y))
}

/// No path at all for the publication.
pub open spec fn plan_has_no_paths(
    action: ArtifactAction,
    pre: Seq<Seq<char>>,
    written: Seq<Seq<char>>,
    found: Seq<Seq<char>>,
) -> bool {
    pre.len() == 0 && written.len() == 0 && (action != ArtifactAction::AdrSupersede || found.len()
        == 0)
}

/// The publication that follows a successful `action`. `pre_paths` are the
/// bundle paths the artifact had before the action; `found_paths` are the
/// existing bundle files of the ADRs a supersede names.
pub fn build_publish_plan(
    action: ArtifactAction,
    response: &JsonValue,
    input: &JsonValue,
    pre_paths: &Vec<String>,
    found_paths: &Vec<String>,
    learning: Option<&str>,
) -> (r: Result<PublishPlan, OrbitError>)
    ensures
        match plan_parts(action, *response, *input, crate::text::opt_view(learning)) {
            Err(m) => r matches Err(OrbitError::Execution(x)) && x@ == m,
            Ok(p) => if plan_has_no_paths(
                action,
                strings_view(pre_paths@),
                p.4,
                strings_view(found_paths@),
            ) {
                r matches Err(OrbitError::Execution(x)) && x@
                    == "auto-publish found no artifact paths for "@ + p.0
            } else {
                r matches Ok(plan) && plan.tool_name@ == p.0 && plan.artifact_id@ == p.2
                    && plan.commit_message@ == commit_message_spec(p.1, p.2, p.3) && strictly_sorted(
                    strings_view(plan.paths@),
                ) && forall|y: Seq<char>|
                    strings_view(plan.paths@).contains(y) <==> plan_path(
                        action,
                        strings_view(pre_paths@),
                        p.4,
                        strings_view(found_paths@),
                        y,
                    )
            },
        },
{
    let (tool, verb, id, summary, written) = match publish_plan_parts(action, response, input, learning) {
        Ok(parts) => parts,
        Err(e) => {
            return Err(e);
        },
    };
    let ghost pre = strings_view(pre_paths@);
    let ghost wr = strings_view(written@);
    let ghost fo = strings_view(found_paths@);
    let mut paths: Vec<String> = Vec::new();
    assert(strictly_sorted(strings_view(paths@)));
    let ghost s0 = strings_view(paths@);
    assert(s0 =~= Seq::<Seq<char>>::empty());
    insert_all(&mut paths, pre_paths);
    let ghost s1 = strings_view(paths@);
    insert_all(&mut paths, &written);
    let ghost s2 = strings_view(paths@);
    if action == ArtifactAction::AdrSupersede {
        insert_all(&mut paths, found_paths);
    }
    let ghost s3 = strings_view(paths@);
    assert forall|y: Seq<char>| s3.contains(y) <==> plan_path(action, pre, wr, fo, y) by {
        assert(s1.contains(y) <==> (s0.contains(y) || pre.contains(y)));
        assert(s2.contains(y) <==> (s1.contains(y) || wr.contains(y)));
        if action == ArtifactAction::AdrSupersede {
            assert(s3.contains(y) <==> (s2.contains(y) || fo.contains(y)));
        }
    }
    if paths.len() == 0 {
        proof {
            assert(s3.len() == 0);
            assert forall|y: Seq<char>| !plan_path(action, pre, wr, fo, y) by {
                assert(!s3.contains(y));
            }
            if pre.len() > 0 {
                assert(pre.contains(pre[0]));
                assert(plan_path(action, pre, wr, fo, pre[0]));
            }
            if wr.len() > 0 {
                assert(wr.contains(wr[0]));
                assert(plan_path(action, pre, wr, fo, wr[0]));
            }
            if action == ArtifactAction::AdrSupersede && fo.len() > 0 {
                assert(fo.contains(fo[0]));
                assert(plan_path(action, pre, wr, fo, fo[0]));
            }
        }
        return Err(
            OrbitError::Execution(prefixed("auto-publish found no artifact paths for ", tool.as_str())),
        );
    }
    proof {
        let pv = strings_view(paths@);
        assert(pv.contains(pv[0]));
        if plan_has_no_paths(action, pre, wr, fo) {
            assert(!plan_path(action, pre, wr, fo, pv[0]));
        }
    }
    let mut message = copy_string("docs: ");
    push_str(&mut message, verb.as_str());
    push_str(&mut message, " ");
    push_str(&mut message, id.as_str());
    push_str(&mut message, " — ");
    let sanitized = sanitize_commit_summary(summary.as_str());
    push_str(&mut message, sanitized.as_str());
    Ok(PublishPlan { tool_name: tool, artifact_id: id, commit_message: message, paths })
}

/// `l` without one trailing carriage return.
pub open spec fn strip_cr(l: Seq<char>) -> Seq<char> {
    if l.len() > 0 && l.last() == '\r' {
        l.drop_last()
    } else {
        l
    }
}

/// `str::lines`, for the line that starts at `start`, scanned from `i`.
pub open spec fn lines_from(s: Seq<char>, start: int, i: int) -> Seq<Seq<char>>
    decreases s.len() - i,
{
    if i >= s.len() {
        if start < s.len() {
            seq![strip_cr(s.subrange(start, s.len() as int))]
        } else {
            Seq::empty()
        }
    } else if s[i] == '\n' {
        seq![strip_cr(s.subrange(start, i))] + lines_from(s, i + 1, i + 1)
    } else {
        lines_from(s, start, i + 1)
    }
}

/// The lines of `s`, as `str::lines` yields them.
pub open spec fn text_lines(s: Seq<char>) -> Seq<Seq<char>> {
    lines_from(s, 0, 0)
}

fn line_of(cs: &Vec<char>, start: usize, end: usize) -> (l: String)
    requires
        start <= end <= cs.len(),
    ensures
        l@ == strip_cr(cs@.subrange(start as int, end as int)),
{
    if end > start && cs[end - 1] == '\r' {
        assert(cs@.subrange(start as int, end as int).drop_last() =~= cs@.subrange(
            start as int,
            end - 1,
        ));
        string_of_range(cs.as_slice(), start, end - 1)
    } else {
        string_of_range(cs.as_slice(), start, end)
    }
}

/// `s.lines()` collected.
pub fn lines_of(s: &str) -> (out: Vec<String>)
    ensures
        strings_view(out@) == text_lines(s@),
{
    let cs = chars_of(s);
    let mut out: Vec<String> = Vec::new();
    let mut start: usize = 0;
    let mut i: usize = 0;
    while i < cs.len()
        invariant
            start <= i <= cs.len(),
            cs@ == s@,
            strings_view(out@) + lines_from(cs@, start as int, i as int) == text_lines(cs@),
        decreases cs.len() - i,
    {
        if cs[i] == '\n' {
            let l = line_of(&cs, start, i);
            let ghost before = strings_view(out@);
            out.push(l);
            proof {
                let rest = lines_from(cs@, i + 1, i + 1);
                assert(strings_view(out@) =~= before.push(l@));
                assert(before + (seq![l@] + rest) =~= before.push(l@) + rest);
            }
            start = i + 1;
        }
        i += 1;
    }
    if start < cs.len() {
        let l = line_of(&cs, start, cs.len());
        let ghost before = strings_view(out@);
        out.push(l);
        assert(strings_view(out@) =~= before.push(l@));
        assert(before + seq![l@] =~= before.push(l@));
    } else {
        assert(strings_view(out@) + Seq::<Seq<char>>::empty() =~= strings_view(out@));
    }
    out
}

/// The worktree that has `branch` checked out, from the lines of
/// `git worktree list --porcelain`, scanning from line `i` with `current`
/// the worktree of the record being read.
pub open spec fn worktree_scan(
    lines: Seq<Seq<char>>,
    branch: Seq<char>,
    i: int,
    current: Option<Seq<char>>,
) -> Option<Seq<char>>
    decreases lines.len() - i,
{
    if i < 0 || i >= lines.len() {
        None
    } else {
        let l = lines[i];
        if crate::text::starts_with(l, "worktree "@) {
            worktree_scan(lines, branch, i + 1, Some(l.skip("worktree "@.len() as int)))
        } else if crate::text::starts_with(l, "branch refs/heads/"@) && l.skip(
            "branch refs/heads/"@.len() as int,
        ) == branch && current is Some {
            current
        } else {
            worktree_scan(lines, branch, i + 1, current)
        }
    }
}

/// The worktree for `branch` from a `git worktree list --porcelain` run.
pub open spec fn worktree_for_branch_spec(o: GitCommandOutput, branch: Seq<char>) -> Result<
    Seq<char>,
    Seq<char>,
> {
    if o.code != 0 {
        Err("list git worktrees for auto-publish: "@ + output_summary(o))
    } else {
        match worktree_scan(text_lines(o.stdout@), branch, 0, None) {
            Some(w) => Ok(w),
            None => Err(
                "auto-publish target branch '"@ + branch + "' is not checked out in any worktree"@,
            ),
        }
    }
}

fn suffix_from(s: &str, k: usize) -> (r: String)
    requires
        k <= s@.len(),
    ensures
        r@ == s@.skip(k as int),
{
    let cs = chars_of(s);
    string_of_range(cs.as_slice(), k, cs.len())
}

/// The worktree that has `branch` checked out, read from the output of
/// `git worktree list --porcelain`.
pub fn find_worktree_for_branch(output: &GitCommandOutput, branch: &str) -> (r: Result<String, OrbitError>)
    ensures
        match worktree_for_branch_spec(*output, branch@) {
            Ok(w) => r matches Ok(x) && x@ == w,
            Err(m) => r matches Err(OrbitError::Execution(x)) && x@ == m,
        },
{
    if !output.success() {
        let summary = output.summary();
        return Err(OrbitError::Execution(prefixed("list git worktrees for auto-publish: ", summary.as_str())));
    }
    let lines = lines_of(output.stdout.as_str());
    let ghost ls = strings_view(lines@);
    let wt_prefix = "worktree ";
    let br_prefix = "branch refs/heads/";
    let wt_len = chars_of(wt_prefix).len();
    let br_len = chars_of(br_prefix).len();
    let mut current: Option<String> = None;
    let mut i: usize = 0;
    while i < lines.len()
        invariant
            i <= lines.len(),
            ls == strings_view(lines@),
            ls == text_lines(output.stdout@),
            output.code == 0,
            wt_len == wt_prefix@.len(),
            br_len == br_prefix@.len(),
            wt_prefix@ == "worktree "@,
            br_prefix@ == "branch refs/heads/"@,
            worktree_scan(ls, branch@, i as int, crate::text::opt_string_view(current))
                == worktree_scan(ls, branch@, 0, None),
        decreases lines.len() - i,
    {
        let l = lines[i].as_str();
        assert(ls[i as int] == l@);
        if crate::text::str_starts_with(l, wt_prefix) {
            current = Some(suffix_from(l, wt_len));
        } else if crate::text::str_starts_with(l, br_prefix) {
            let name = suffix_from(l, br_len);
            if crate::text::str_eq(name.as_str(), branch) {
                match current {
                    Some(w) => {
                        assert(!crate::text::starts_with(ls[i as int], "worktree "@));
                        assert(ls[i as int].skip("branch refs/heads/"@.len() as int) == branch@);
                        assert(worktree_scan(ls, branch@, i as int, Some(w@)) == Some(w@));
                        return Ok(w);
                    },
                    None => {},
                }
            }
        }
        i += 1;
    }
    let mut m = copy_string("auto-publish target branch '");
    push_str(&mut m, branch);
    push_str(&mut m, "' is not checked out in any worktree");
    Err(OrbitError::Execution(m))
}

/// The git common directory from a `git rev-parse --git-common-dir` run in
/// `worktree`: relative answers are taken from the worktree.
pub open spec fn common_dir_spec(o: GitCommandOutput, worktree: Seq<char>) -> Result<Seq<char>, Seq<char>> {
    if o.code != 0 {
        Err("resolve git common dir for auto-publish: "@ + output_summary(o))
    } else {
        let raw = trim(o.stdout@);
        if raw.len() == 0 {
            Err("git returned an empty common dir for auto-publish"@)
        } else if raw[0] == '/' {
            Ok(raw)
        } else {
            Ok(path_join(worktree, raw))
        }
    }
}

pub fn git_common_dir(output: &GitCommandOutput, worktree: &str) -> (r: Result<String, OrbitError>)
    ensures
        match common_dir_spec(*output, worktree@) {
            Ok(d) => r matches Ok(x) && x@ == d,
            Err(m) => r matches Err(OrbitError::Execution(x)) && x@ == m,
        },
{
    if !output.success() {
        let summary = output.summary();
        return Err(
            OrbitError::Execution(prefixed("resolve git common dir for auto-publish: ", summary.as_str())),
        );
    }
    let raw = trimmed(output.stdout.as_str());
    let cs = chars_of(raw.as_str());
    if cs.len() == 0 {
        return Err(OrbitError::Execution(copy_string("git returned an empty common dir for auto-publish")));
    }
    if cs[0] == '/' {
        Ok(raw)
    } else {
        Ok(join_path(worktree, raw.as_str()))
    }
}

/// `agent`, else `model`, when it is not blank once trimmed; otherwise
/// the runtime's own actor label.
pub open spec fn commit_actor_spec(agent: Option<Seq<char>>, model: Option<Seq<char>>, fallback: Seq<char>) -> Seq<char> {
    let chosen = match agent {
        Some(a) => Some(a),
        None => model,
    };
    match chosen {
        Some(c) => if trim(c).len() > 0 {
            trim(c)
        } else {
            fallback
        },
        None => fallback,
    }
}

pub fn commit_actor(agent: Option<&str>, model: Option<&str>, fallback: &str) -> (r: String)
    ensures
        r@ == commit_actor_spec(crate::text::opt_view(agent), crate::text::opt_view(model), fallback@),
{
    let chosen = match agent {
        Some(a) => Some(a),
        None => model,
    };
    match chosen {
        Some(c) => {
            let t = trimmed(c);
            if t.as_str().is_empty() {
                copy_string(fallback)
            } else {
                t
            }
        },
        None => copy_string(fallback),
    }
}

/// The name git records for `actor`: trimmed, `agent` when blank.
pub open spec fn identity_name(actor: Seq<char>) -> Seq<char> {
    if trim(actor).len() == 0 {
        "agent"@
    } else {
        trim(actor)
    }
}

/// The author and committer environment of a publication commit.
pub fn git_identity_env(actor: &str) -> (env: Vec<(String, String)>)
    ensures
        env@.len() == 4,
        env@[0].0@ == "GIT_AUTHOR_NAME"@,
        env@[0].1@ == identity_name(actor@),
        env@[1].0@ == "GIT_AUTHOR_EMAIL"@,
        env@[1].1@ == identity_name(actor@) + "@orbit.local"@,
        env@[2].0@ == "GIT_COMMITTER_NAME"@,
        env@[2].1@ == identity_name(actor@),
        env@[3].0@ == "GIT_COMMITTER_EMAIL"@,
        env@[3].1@ == identity_name(actor@) + "@orbit.local"@,
{
    let t = trimmed(actor);
    let name = if t.as_str().is_empty() {
        copy_string("agent")
    } else {
        t
    };
    let email = prefixed(name.as_str(), "@orbit.local");
    let mut env: Vec<(String, String)> = Vec::new();
    env.push((copy_string("GIT_AUTHOR_NAME"), copy_string(name.as_str())));
    env.push((copy_string("GIT_AUTHOR_EMAIL"), copy_string(email.as_str())));
    env.push((copy_string("GIT_COMMITTER_NAME"), copy_string(name.as_str())));
    env.push((copy_string("GIT_COMMITTER_EMAIL"), email));
    env
}

fn args_with_paths(head: Vec<String>, paths: &Vec<String>) -> (r: Vec<String>)
    ensures
        strings_view(r@) == strings_view(head@) + strings_view(paths@),
{
    let mut r = head;
    let ghost h = strings_view(r@);
    let mut i: usize = 0;
    while i < paths.len()
        invariant
            i <= paths.len(),
            strings_view(r@) == h + strings_view(paths@.subrange(0, i as int)),
        decreases paths.len() - i,
    {
        let item = copy_string(paths[i].as_str());
        let ghost before = strings_view(r@);
        r.push(item);
        assert(strings_view(r@) =~= before.push(paths@[i as int]@));
        assert(strings_view(paths@.subrange(0, i + 1)) =~= strings_view(paths@.subrange(0, i as int)).push(paths@[i as int]@));
        i += 1;
    }
    assert(paths@.subrange(0, paths.len() as int) =~= paths@);
    r
}

/// `git add -A -- <paths>`.
pub fn add_args(paths: &Vec<String>) -> (r: Vec<String>)
    ensures
        strings_view(r@) == seq!["add"@, "-A"@, "--"@] + strings_view(paths@),
{
    let mut head: Vec<String> = Vec::new();
    head.push(copy_string("add"));
    head.push(copy_string("-A"));
    head.push(copy_string("--"));
    assert(strings_view(head@) =~= seq!["add"@, "-A"@, "--"@]);
    args_with_paths(head, paths)
}

/// `git diff --cached --quiet -- <paths>`.
pub fn diff_args(paths: &Vec<String>) -> (r: Vec<String>)
    ensures
        strings_view(r@) == seq!["diff"@, "--cached"@, "--quiet"@, "--"@] + strings_view(paths@),
{
    let mut head: Vec<String> = Vec::new();
    head.push(copy_string("diff"));
    head.push(copy_string("--cached"));
    head.push(copy_string("--quiet"));
    head.push(copy_string("--"));
    assert(strings_view(head@) =~= seq!["diff"@, "--cached"@, "--quiet"@, "--"@]);
    args_with_paths(head, paths)
}

/// `git commit -m <message> -- <paths>`.
pub fn commit_args(message: &str, paths: &Vec<String>) -> (r: Vec<String>)
    ensures
        strings_view(r@) == seq!["commit"@, "-m"@, message@, "--"@] + strings_view(paths@),
{
    let mut head: Vec<String> = Vec::new();
    head.push(copy_string("commit"));
    head.push(copy_string("-m"));
    head.push(copy_string(message));
    head.push(copy_string("--"));
    assert(strings_view(head@) =~= seq!["commit"@, "-m"@, message@, "--"@]);
    args_with_paths(head, paths)
}

/// `git ls-files --error-unmatch -- <path>`.
pub fn ls_files_args(path: &str) -> (r: Vec<String>)
    ensures
        strings_view(r@) == seq!["ls-files"@, "--error-unmatch"@, "--"@, path@],
{
    let mut r: Vec<String> = Vec::new();
    r.push(copy_string("ls-files"));
    r.push(copy_string("--error-unmatch"));
    r.push(copy_string("--"));
    r.push(copy_string(path));
    assert(strings_view(r@) =~= seq!["ls-files"@, "--error-unmatch"@, "--"@, path@]);
    r
}

/// Whether `git ls-files --error-unmatch` found the path tracked: exit 0
/// is yes, exit 1 is no, anything else is a failure of that step.
pub fn tracked_from_ls_files(output: GitCommandOutput) -> (r: Result<bool, GitFailure>)
    ensures
        output.code == 0 ==> r == Ok::<bool, GitFailure>(true),
        output.code == 1 ==> r == Ok::<bool, GitFailure>(false),
        output.code != 0 && output.code != 1 ==> (r matches Err(f) && f.phase@ == "git ls-files"@
            && f.output == output),
{
    if output.success() {
        return Ok(true);
    }
    if output.code == 1 {
        return Ok(false);
    }
    Err(GitFailure { phase: copy_string("git ls-files"), output })
}

/// What `git diff --cached --quiet` says of the staged artifacts: exit 1
/// means there is something to commit; exit 0 means nothing was staged;
/// anything else is a failure of that step.
pub fn staged_changes(output: GitCommandOutput) -> (r: Result<(), GitFailure>)
    ensures
        output.code == 1 ==> r is Ok,
        output.code == 0 ==> (r matches Err(f) && f.phase@ == "git diff"@ && f.output.code == 1
            && f.output.stdout@ == Seq::<char>::empty() && f.output.stderr@
            == "auto-publish staged no changes for artifact paths"@),
        output.code != 0 && output.code != 1 ==> (r matches Err(f) && f.phase@ == "git diff"@
            && f.output == output),
{
    if output.code == 0 {
        return Err(GitFailure::message("git diff", "auto-publish staged no changes for artifact paths"));
    }
    if output.code != 1 {
        return Err(GitFailure { phase: copy_string("git diff"), output });
    }
    Ok(())
}

/// The pause before commit attempt `attempt + 1` when attempt `attempt`
/// (counted from 0) failed: only a locked index is retried, at most five
/// attempts are made, and the pause doubles from 50 ms.
pub open spec fn commit_retry_spec(attempt: int, index_locked: bool) -> Option<u64> {
    if index_locked && 0 <= attempt < 4 {
        Some((50 * vstd::arithmetic::power2::pow2(attempt as nat)) as u64)
    } else {
        None
    }
}

pub fn commit_retry_delay_ms(attempt: u32, index_locked: bool) -> (r: Option<u64>)
    ensures
        r == commit_retry_spec(attempt as int, index_locked),
{
    if index_locked && attempt < 4 {
        proof {
            vstd::arithmetic::power2::lemma2_to64();
        }
        let factor: u64 = if attempt == 0 {
            1
        } else if attempt == 1 {
            2
        } else if attempt == 2 {
            4
        } else {
            8
        };
        Some(50 * factor)
    } else {
        None
    }
}

/// The pause before another attempt to create the publication lock after
/// attempt `attempt` (counted from 0) found it held; after twenty attempts
/// the lock is given up.
pub open spec fn lock_retry_spec(attempt: int) -> Option<u64> {
    if 0 <= attempt < 19 {
        Some((50 * (1 + attempt)) as u64)
    } else {
        None
    }
}

pub fn lock_retry_delay_ms(attempt: u32) -> (r: Option<u64>)
    ensures
        r == lock_retry_spec(attempt as int),
{
    if attempt < 19 {
        Some(50 * (1 + attempt as u64))
    } else {
        None
    }
}

/// A commit is retried only while the index is locked, and never after the
/// fifth attempt.
pub proof fn law_commit_attempts_are_bounded(attempt: int, index_locked: bool)
    ensures
        commit_retry_spec(attempt, index_locked) is Some ==> index_locked && attempt < 4,
        attempt >= 4 ==> commit_retry_spec(attempt, index_locked) is None,
{
}

/// The git steps that push a publication commit.
#[derive(Debug, Clone, Copy, PartialEq, Eq, Structural)]
pub enum PushStep {
    Push,
    Fetch,
    Rebase,
    PushAfterRebase,
    ReadHead,
}

/// What follows a push step.
#[derive(Debug)]
pub enum PushDecision {
    /// Run this step next.
    Run(PushStep),
    /// Run `git rebase --abort`, whatever it prints, then fail with this error.
    AbortRebase(OrbitError),
    /// The commit is on the remote; the rebased head when a rebase happened.
    Pushed(Option<String>),
    Failed(OrbitError),
}

/// `git push origin <branch>`, `git fetch origin <branch>`,
/// `git rebase origin/<branch>`, `git rev-parse HEAD`.
pub open spec fn push_args_spec(step: PushStep, branch: Seq<char>) -> Seq<Seq<char>> {
    match step {
        PushStep::Push => seq!["push"@, "origin"@, branch],
        PushStep::PushAfterRebase => seq!["push"@, "origin"@, branch],
        PushStep::Fetch => seq!["fetch"@, "origin"@, branch],
        PushStep::Rebase => seq!["rebase"@, "origin/"@ + branch],
        PushStep::ReadHead => seq!["rev-parse"@, "HEAD"@],
    }
}

pub fn push_step_args(step: PushStep, branch: &str) -> (r: Vec<String>)
    ensures
        strings_view(r@) == push_args_spec(step, branch@),
{
    let mut r: Vec<String> = Vec::new();
    match step {
        PushStep::Push | PushStep::PushAfterRebase => {
            r.push(copy_string("push"));
            r.push(copy_string("origin"));
            r.push(copy_string(branch));
        },
        PushStep::Fetch => {
            r.push(copy_string("fetch"));
            r.push(copy_string("origin"));
            r.push(copy_string(branch));
        },
        PushStep::Rebase => {
            r.push(copy_string("rebase"));
            r.push(prefixed("origin/", branch));
        },
        PushStep::ReadHead => {
            r.push(copy_string("rev-parse"));
            r.push(copy_string("HEAD"));
        },
    }
    assert(strings_view(r@) =~= push_args_spec(step, branch@));
    r
}

/// The step that follows `step` when git answered `o`; `None` when the
/// push is over, pushed or failed.
pub open spec fn push_next_step(step: PushStep, o: GitCommandOutput) -> Option<PushStep> {
    match step {
        PushStep::Push => if o.code == 0 {
            None
        } else if non_fast_forward(o) {
            Some(PushStep::Fetch)
        } else {
            None
        },
        PushStep::Fetch => if o.code == 0 {
            Some(PushStep::Rebase)
        } else {
            None
        },
        PushStep::Rebase => if o.code == 0 {
            Some(PushStep::PushAfterRebase)
        } else {
            None
        },
        PushStep::PushAfterRebase => if o.code == 0 {
            Some(PushStep::ReadHead)
        } else {
            None
        },
        PushStep::ReadHead => None,
    }
}

/// The position of a step in the push sequence.
pub open spec fn push_rank(step: PushStep) -> int {
    match step {
        PushStep::Push => 0,
        PushStep::Fetch => 1,
        PushStep::Rebase => 2,
        PushStep::PushAfterRebase => 3,
        PushStep::ReadHead => 4,
    }
}

/// The error message of a failed step.
pub open spec fn push_failure_message(step: PushStep, o: GitCommandOutput, branch: Seq<char>) -> Seq<char> {
    match step {
        PushStep::Push => "auto-publish push to origin/"@ + branch + " failed: "@ + output_summary(o),
        PushStep::Fetch => "auto-publish fetch before rebase for branch '"@ + branch + "' failed: "@
            + output_summary(o),
        PushStep::Rebase => "auto-publish rebase onto origin/"@ + branch + " failed for branch '"@
            + branch + "'; local commit is preserved: "@ + output_summary(o),
        PushStep::PushAfterRebase => "auto-publish push to origin/"@ + branch
            + " failed after one rebase retry; local commit is preserved: "@ + output_summary(o),
        PushStep::ReadHead => "read rebased auto-publish HEAD: "@ + output_summary(o),
    }
}

/// What follows push step `step` whose git run answered `output`: a first
/// push that the remote refused as non-fast-forward is fetched, rebased and
/// pushed once more; any other failure ends the push with its error; a
/// failed rebase is aborted first.
pub fn next_push_step(step: PushStep, output: &GitCommandOutput, branch: &str) -> (r: PushDecision)
    ensures
        match r {
            PushDecision::Run(t) => push_next_step(step, *output) == Some(t),
            _ => push_next_step(step, *output) is None,
        },
        step == PushStep::Push && output.code == 0 ==> r == PushDecision::Pushed(None),
        step == PushStep::ReadHead && output.code == 0 ==> (r matches PushDecision::Pushed(Some(h))
            && h@ == trim(output.stdout@)),
        output.code != 0 && push_next_step(step, *output) is None ==> if step == PushStep::Rebase {
            r matches PushDecision::AbortRebase(OrbitError::Execution(m)) && m@
                == push_failure_message(step, *output, branch@)
        } else {
            r matches PushDecision::Failed(OrbitError::Execution(m)) && m@ == push_failure_message(
                step,
                *output,
                branch@,
            )
        },
{
    let ok = output.success();
    match step {
        PushStep::Push => {
            if ok {
                return PushDecision::Pushed(None);
            }
            if output.is_non_fast_forward() {
                return PushDecision::Run(PushStep::Fetch);
            }
            let mut m = copy_string("auto-publish push to origin/");
            push_str(&mut m, branch);
            push_str(&mut m, " failed: ");
            let summary = output.summary();
            push_str(&mut m, summary.as_str());
            PushDecision::Failed(OrbitError::Execution(m))
        },
        PushStep::Fetch => {
            if ok {
                return PushDecision::Run(PushStep::Rebase);
            }
            let mut m = copy_string("auto-publish fetch before rebase for branch '");
            push_str(&mut m, branch);
            push_str(&mut m, "' failed: ");
            let summary = output.summary();
            push_str(&mut m, summary.as_str());
            PushDecision::Failed(OrbitError::Execution(m))
        },
        PushStep::Rebase => {
            if ok {
                return PushDecision::Run(PushStep::PushAfterRebase);
            }
            let mut m = copy_string("auto-publish rebase onto origin/");
            push_str(&mut m, branch);
            push_str(&mut m, " failed for branch '");
            push_str(&mut m, branch);
            push_str(&mut m, "'; local commit is preserved: ");
            let summary = output.summary();
            push_str(&mut m, summary.as_str());
            PushDecision::AbortRebase(OrbitError::Execution(m))
        },
        PushStep::PushAfterRebase => {
            if ok {
                return PushDecision::Run(PushStep::ReadHead);
            }
            let mut m = copy_string("auto-publish push to origin/");
            push_str(&mut m, branch);
            push_str(&mut m, " failed after one rebase retry; local commit is preserved: ");
            let summary = output.summary();
            push_str(&mut m, summary.as_str());
            PushDecision::Failed(OrbitError::Execution(m))
        },
        PushStep::ReadHead => {
            if ok {
                return PushDecision::Pushed(Some(trimmed(output.stdout.as_str())));
            }
            let summary = output.summary();
            PushDecision::Failed(
                OrbitError::Execution(prefixed("read rebased auto-publish HEAD: ", summary.as_str())),
            )
        },
    }
}

/// The push only moves forward through its steps, so it fetches, rebases
/// and retries the push at most once, and stops after reading the head.
pub proof fn law_push_moves_forward(step: PushStep, o: GitCommandOutput)
    ensures
        push_next_step(step, o) matches Some(t) ==> push_rank(t) == push_rank(step) + 1,
        step == PushStep::PushAfterRebase ==> push_next_step(step, o) != Some(PushStep::Fetch),
        push_next_step(PushStep::ReadHead, o) is None,
{
}

/// How far a publication got when it stopped.
#[derive(Debug, Clone, Copy, PartialEq, Eq, Structural)]
pub enum PublishStage {
    LocateWorktree,
    Lock,
    Sync,
    Commit,
    Push,
}

/// The push outcome an audit records: `pushed` on success, `committed_only`
/// when only the push failed, `failed` otherwise.
pub open spec fn push_outcome_spec(failed_at: Option<PublishStage>) -> Seq<char> {
    match failed_at {
        None => "pushed"@,
        Some(PublishStage::Push) => "committed_only"@,
        Some(_) => "failed"@,
    }
}

pub fn push_outcome(failed_at: Option<PublishStage>) -> (r: &'static str)
    ensures
        r@ == push_outcome_spec(failed_at),
{
    match failed_at {
        None => "pushed",
        Some(PublishStage::Push) => "committed_only",
        Some(_) => "failed",
    }
}

/// An audit succeeds, with exit code 0, only for a pushed publication;
/// otherwise it fails with exit code 1.
pub fn audit_status(outcome: &str) -> (r: (bool, i32))
    ensures
        r.0 == (outcome@ == "pushed"@),
        r.1 == if r.0 {
            0i32
        } else {
            1i32
        },
{
    let pushed = crate::text::str_eq(outcome, "pushed");
    (pushed, if pushed {
        0
    } else {
        1
    })
}

/// The error of a failed publication whose audit could not be recorded
/// either.
pub fn audit_failure_message(failure: &str, audit_error: &str) -> (r: String)
    ensures
        r@ == failure@ + "; additionally failed to record auto-publish audit: "@ + audit_error@,
{
    let mut m = copy_string(failure);
    push_str(&mut m, "; additionally failed to record auto-publish audit: ");
    push_str(&mut m, audit_error);
    m
}

/// What the publication does with one artifact path in the target worktree.
#[derive(Debug, Clone, Copy, PartialEq, Eq, Structural)]
pub enum SyncAction {
    /// Source and target are one file.
    Skip,
    /// Copy the source over the target.
    Copy,
    /// The artifact was deleted: remove the target.
    Remove,
    /// Neither exists.
    Nothing,
}

pub fn sync_action(same_file: bool, source_is_file: bool, target_exists: bool) -> (r: SyncAction)
    ensures
        r == if same_file {
            SyncAction::Skip
        } else if source_is_file {
            SyncAction::Copy
        } else if target_exists {
            SyncAction::Remove
        } else {
            SyncAction::Nothing
        },
{
    if same_file {
        SyncAction::Skip
    } else if source_is_file {
        SyncAction::Copy
    } else if target_exists {
        SyncAction::Remove
    } else {
        SyncAction::Nothing
    }
}

/// The ADR whose existing bundle files are recorded before `action` runs:
/// the updated ADR, or the superseded one (`old_id`, `old` or `oldId`,
/// whichever is present first, when it is a string).
pub open spec fn pre_action_adr_spec(action: ArtifactAction, input: JsonValue) -> Option<Seq<char>> {
    match action {
        ArtifactAction::AdrUpdate => str_field(input, "id"@),
        ArtifactAction::AdrSupersede => match json_get(input, "old_id"@) {
            Some(v) => crate::json::json_str(Some(v)),
            None => match json_get(input, "old"@) {
                Some(v) => crate::json::json_str(Some(v)),
                None => crate::json::json_str(json_get(input, "oldId"@)),
            },
        },
        _ => None,
    }
}

pub fn pre_action_adr_id(action: ArtifactAction, input: &JsonValue) -> (r: Option<String>)
    ensures
        match pre_action_adr_spec(action, *input) {
            Some(id) => r matches Some(x) && x@ == id,
            None => r is None,
        },
{
    let value = match action {
        ArtifactAction::AdrUpdate => input.get("id"),
        ArtifactAction::AdrSupersede => match input.get("old_id") {
            Some(v) => Some(v),
            None => match input.get("old") {
                Some(v) => Some(v),
                None => input.get("oldId"),
            },
        },
        _ => None,
    };
    match value {
        Some(v) => match v.as_text() {
            Some(t) => Some(copy_string(t.as_str())),
            None => None,
        },
        None => None,
    }
}

/// The trimmed, non-blank lines among `lines`, in order.
pub open spec fn nonblank_trimmed(lines: Seq<Seq<char>>) -> Seq<Seq<char>>
    decreases lines.len(),
{
    if lines.len() == 0 {
        Seq::empty()
    } else {
        let rest = nonblank_trimmed(lines.drop_last());
        let t = trim(lines.last());
        if t.len() == 0 {
            rest
        } else {
            rest.push(t)
        }
    }
}

/// The records of a `comments.jsonl` file: its lines, trimmed, blank ones
/// left out.
pub fn comment_records(raw: &str) -> (out: Vec<String>)
    ensures
        strings_view(out@) == nonblank_trimmed(text_lines(raw@)),
{
    let lines = lines_of(raw);
    let mut out: Vec<String> = Vec::new();
    let mut i: usize = 0;
    while i < lines.len()
        invariant
            i <= lines.len(),
            strings_view(lines@) == text_lines(raw@),
            strings_view(out@) == nonblank_trimmed(strings_view(lines@).subrange(0, i as int)),
        decreases lines.len() - i,
    {
        let ghost before = strings_view(out@);
        assert(strings_view(lines@).subrange(0, i + 1).drop_last() =~= strings_view(lines@).subrange(0, i as int));
        assert(strings_view(lines@).subrange(0, i + 1).last() == lines@[i as int]@);
        let t = trimmed(lines[i].as_str());
        if t.as_str().unicode_len() > 0 {
            out.push(t);
            assert(strings_view(out@) =~= before.push(trim(lines@[i as int]@)));
        }
        i += 1;
    }
    assert(strings_view(lines@).subrange(0, lines.len() as int) =~= strings_view(lines@));
    out
}

/// Whether one of the parsed comment records has id `comment_id`.
pub fn holds_comment(records: &Vec<JsonValue>, comment_id: &str) -> (b: bool)
    ensures
        b == exists|k: int| 0 <= k < records.len() && str_field(#[trigger] records@[k], "id"@) == Some(comment_id@),
{
    let mut i: usize = 0;
    while i < records.len()
        invariant
            i <= records.len(),
            forall|k: int| 0 <= k < i ==> str_field(#[trigger] records@[k], "id"@) != Some(comment_id@),
        decreases records.len() - i,
    {
        match get_str(&records[i], "id") {
            Some(id) => {
                if str_eq(id.as_str(), comment_id) {
                    return true;
                }
            },
            None => {},
        }
        i += 1;
    }
    false
}

proof fn lemma_lower_concat(a: Seq<char>, b: Seq<char>)
    ensures
        ascii_lower(a + b) == ascii_lower(a) + ascii_lower(b),
{
    assert(ascii_lower(a + b) =~= ascii_lower(a) + ascii_lower(b));
}

proof fn lemma_contains_extended(a: Seq<char>, s: Seq<char>, b: Seq<char>, p: Seq<char>)
    requires
        contains(s, p),
    ensures
        contains(a + s + b, p),
{
    let i = choose|i: int| crate::text::occurs_at(s, p, i);
    let t = a + s + b;
    assert(t.subrange(a.len() + i, a.len() + i + p.len()) =~= s.subrange(i, i + p.len()));
    assert(crate::text::occurs_at(t, p, a.len() + i));
}

/// A push the remote refused because it moved on is fetched, rebased and
/// pushed again: when a failed push printed `non-fast-forward`, `fetch
/// first` or `stale info` (in any letter case) on either stream, the next
/// step is the fetch.
pub proof fn law_non_fast_forward_push_is_retried(o: GitCommandOutput)
    requires
        o.code != 0,
        contains(ascii_lower(o.stderr@), "non-fast-forward"@) || contains(ascii_lower(o.stdout@), "non-fast-forward"@)
            || contains(ascii_lower(o.stderr@), "fetch first"@) || contains(ascii_lower(o.stdout@), "fetch first"@)
            || contains(ascii_lower(o.stderr@), "stale info"@) || contains(ascii_lower(o.stdout@), "stale info"@),
    ensures
        push_next_step(PushStep::Push, o) == Some(PushStep::Fetch),
{
    let lo = ascii_lower(o.stdout@);
    let ln = ascii_lower(seq!['\n']);
    let le = ascii_lower(o.stderr@);
    lemma_lower_concat(o.stdout@ + seq!['\n'], o.stderr@);
    lemma_lower_concat(o.stdout@, seq!['\n']);
    let c = combined_lower(o);
    assert(c == lo + ln + le);
    let e = Seq::<char>::empty();
    assert(lo + ln + le == lo + ln + le + e);
    assert(lo + ln + le == e + lo + (ln + le));
    if contains(le, "non-fast-forward"@) {
        lemma_contains_extended(lo + ln, le, e, "non-fast-forward"@);
    } else if contains(lo, "non-fast-forward"@) {
        lemma_contains_extended(e, lo, ln + le, "non-fast-forward"@);
    } else if contains(le, "fetch first"@) {
        lemma_contains_extended(lo + ln, le, e, "fetch first"@);
    } else if contains(lo, "fetch first"@) {
        lemma_contains_extended(e, lo, ln + le, "fetch first"@);
    } else if contains(le, "stale info"@) {
        lemma_contains_extended(lo + ln, le, e, "stale info"@);
    } else {
        lemma_contains_extended(e, lo, ln + le, "stale info"@);
    }
}

} // verus!
