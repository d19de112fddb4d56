//! Remote command execution rules: what an `argv` must look like and where
//! a run's claim guard lives.
use vstd::prelude::*;

use crate::error::OrbitError;
use crate::json::{JsonValue, json_get};
use crate::session_log::{join_path, path_join};
use crate::text::{contains, copy_string, push_str, str_contains, strings_view, trim, trimmed};

verus! {

/// The trimmed argument strings of `items`, when every item is a string
/// that is not blank.
pub open spec fn argv_items(items: Seq<JsonValue>) -> Option<Seq<Seq<char>>>
    decreases items.len(),
{
    if items.len() == 0 {
        Some(Seq::empty())
    } else {
        match argv_items(items.drop_last()) {
            None => None,
            Some(prev) => match items.last() {
                JsonValue::Str(s) => if trim(s@).len() > 0 {
                    Some(prev.push(trim(s@)))
                } else {
                    None
                },
                _ => None,
            },
        }
    }
}

pub open spec fn missing_argv_message() -> Seq<char> {
    "missing `argv`; pass the command as a JSON array of argument strings, e.g. [\"git\", \"status\"]"@
}

pub open spec fn shell_string_message() -> Seq<char> {
    "`argv` must be a JSON array of argument strings, never a shell string; command execution never interprets shell syntax"@
}

/// A command is a non-empty array of non-blank strings; a shell string is
/// refused outright.
pub open spec fn argv_spec(input: JsonValue) -> Result<Seq<Seq<char>>, Seq<char>> {
    match json_get(input, "argv"@) {
        None => Err(missing_argv_message()),
        Some(JsonValue::Null) => Err(missing_argv_message()),
        Some(JsonValue::Str(_)) => Err(shell_string_message()),
        Some(JsonValue::Array(items)) => if items@.len() == 0 {
            Err("`argv` must not be empty; it must name at least the program to run"@)
        } else {
            match argv_items(items@) {
                Some(a) => Ok(a),
                None => Err("`argv` entries must be non-empty strings"@),
            }
        },
        Some(_) => Err("`argv` must be a JSON array of argument strings"@),
    }
}

/// The program and arguments of a command request.
pub fn required_argv(input: &JsonValue) -> (r: Result<Vec<String>, OrbitError>)
    ensures
        match argv_spec(*input) {
            Ok(a) => r matches Ok(v) && strings_view(v@) == a,
            Err(m) => r matches Err(OrbitError::InvalidInput(x)) && x@ == m,
        },
{
    match input.get("argv") {
        None | Some(JsonValue::Null) => Err(
            OrbitError::InvalidInput(
                copy_string(
                    "missing `argv`; pass the command as a JSON array of argument strings, e.g. [\"git\", \"status\"]",
                ),
            ),
        ),
        Some(JsonValue::Str(_)) => Err(
            OrbitError::InvalidInput(
                copy_string(
                    "`argv` must be a JSON array of argument strings, never a shell string; command execution never interprets shell syntax",
                ),
            ),
        ),
        Some(JsonValue::Array(items)) => {
            if items.len() == 0 {
                return Err(
                    OrbitError::InvalidInput(
                        copy_string(
                            "`argv` must not be empty; it must name at least the program to run",
                        ),
                    ),
                );
            }
            let mut out: Vec<String> = Vec::new();
            let mut i: usize = 0;
            let ghost outcome = match argv_items(items@) {
                Some(a) => Ok(a),
                None => Err("`argv` entries must be non-empty strings"@),
            };
            assert(argv_spec(*input) == outcome);
            while i < items.len()
                invariant
                    i <= items.len(),
                    argv_spec(*input) == outcome,
                    outcome == match argv_items(items@) {
                        Some(a) => Ok(a),
                        None => Err("`argv` entries must be non-empty strings"@),
                    },
                    argv_items(items@.subrange(0, i as int)) == Some(strings_view(out@)),
                decreases items.len() - i,
            {
                let ghost pre = items@.subrange(0, i as int);
                assert(items@.subrange(0, i + 1).drop_last() =~= pre);
                match &items[i] {
                    JsonValue::Str(s) => {
                        let t = trimmed(s.as_str());
                        if t.as_str().is_empty() {
                            proof {
                                lemma_argv_items_prefix(items@, i + 1);
                            }
                            return Err(
                                OrbitError::InvalidInput(copy_string("`argv` entries must be non-empty strings")),
                            );
                        }
                        let ghost before = strings_view(out@);
                        out.push(t);
                        assert(strings_view(out@) =~= before.push(trim(s@)));
                    },
                    _ => {
                        proof {
                            lemma_argv_items_prefix(items@, i + 1);
                        }
                        return Err(
                            OrbitError::InvalidInput(copy_string("`argv` entries must be non-empty strings")),
                        );
                    },
                }
                i += 1;
            }
            assert(items@.subrange(0, items.len() as int) =~= items@);
            Ok(out)
        },
        Some(_) => Err(
            OrbitError::InvalidInput(copy_string("`argv` must be a JSON array of argument strings")),
        ),
    }
}

/// A prefix that already fails keeps the whole list failing.
pub proof fn lemma_argv_items_prefix(items: Seq<JsonValue>, k: int)
    requires
        0 <= k <= items.len(),
        argv_items(items.subrange(0, k)) is None,
    ensures
        argv_items(items) is None,
    decreases items.len() - k,
{
    if k < items.len() {
        assert(items.subrange(0, k + 1).drop_last() =~= items.subrange(0, k));
        lemma_argv_items_prefix(items, k + 1);
    } else {
        assert(items.subrange(0, k) =~= items);
    }
}

/// A run id names a guard file only when it is not empty and cannot leave
/// the guard directory.
pub open spec fn guard_path_spec(state_dir: Seq<char>, run_id: Seq<char>) -> Result<Seq<char>, Seq<char>> {
    if run_id.len() == 0 || run_id.contains('/') || run_id.contains('\\') || contains(run_id, ".."@) {
        Err("refusing to derive a run-claim guard path for suspicious run id `"@ + run_id + "`"@)
    } else {
        Ok(path_join(path_join(state_dir, "run-guards"@), run_id + ".lock"@))
    }
}

fn has_char(s: &str, c: char) -> (b: bool)
    ensures
        b == s@.contains(c),
{
    let cs = crate::text::chars_of(s);
    let mut i: usize = 0;
    while i < cs.len()
        invariant
            i <= cs.len(),
            cs@ == s@,
            forall|k: int| 0 <= k < i ==> cs@[k] != c,
        decreases cs.len() - i,
    {
        if cs[i] == c {
            return true;
        }
        i += 1;
    }
    false
}

/// The advisory lock file that serializes claiming run `run_id` against
/// collecting its worktree.
pub fn guard_path(state_dir: &str, run_id: &str) -> (r: Result<String, OrbitError>)
    ensures
        match guard_path_spec(state_dir@, run_id@) {
            Ok(p) => r matches Ok(x) && x@ == p,
            Err(m) => r matches Err(OrbitError::InvalidInput(x)) && x@ == m,
        },
{
    if run_id.is_empty() || has_char(run_id, '/') || has_char(run_id, '\\') || str_contains(run_id, "..") {
        let mut m = copy_string("refusing to derive a run-claim guard path for suspicious run id `");
        push_str(&mut m, run_id);
        push_str(&mut m, "`");
        return Err(OrbitError::InvalidInput(m));
    }
    let dir = join_path(state_dir, "run-guards");
    let mut name = copy_string(run_id);
    push_str(&mut name, ".lock");
    Ok(join_path(dir.as_str(), name.as_str()))
}

/// The program to run and its arguments.
pub fn split_argv(argv: Vec<String>) -> (r: Result<(String, Vec<String>), OrbitError>)
    ensures
        argv@.len() == 0 ==> (r matches Err(OrbitError::InvalidInput(m)) && m@
            == "`argv` must not be empty"@),
        argv@.len() > 0 ==> (r matches Ok((p, a)) && p@ == argv@[0]@ && strings_view(a@)
            == strings_view(argv@.skip(1))),
{
    if argv.len() == 0 {
        return Err(OrbitError::InvalidInput(copy_string("`argv` must not be empty")));
    }
    let program = copy_string(argv[0].as_str());
    let mut args: Vec<String> = Vec::new();
    let mut i: usize = 1;
    while i < argv.len()
        invariant
            1 <= i <= argv.len(),
            strings_view(args@) == strings_view(argv@.subrange(1, i as int)),
        decreases argv.len() - i,
    {
        let item = copy_string(argv[i].as_str());
        let ghost before = strings_view(args@);
        args.push(item);
        assert(strings_view(args@) =~= before.push(argv@[i as int]@));
        assert(strings_view(argv@.subrange(1, i + 1)) =~= strings_view(argv@.subrange(1, i as int)).push(argv@[i as int]@));
        i += 1;
    }
    assert(argv@.subrange(1, argv.len() as int) =~= argv@.skip(1));
    Ok((program, args))
}

/// The error of a command that could not be spawned.
pub fn spawn_error(program: &str, working_directory: &str, error: &str) -> (e: OrbitError)
    ensures
        e matches OrbitError::Execution(m) && m@ == "spawn '"@ + program@ + "' in '"@
            + working_directory@ + "': "@ + error@,
{
    let mut m = copy_string("spawn '");
    push_str(&mut m, program);
    push_str(&mut m, "' in '");
    push_str(&mut m, working_directory);
    push_str(&mut m, "': ");
    push_str(&mut m, error);
    OrbitError::Execution(m)
}

} // verus!
