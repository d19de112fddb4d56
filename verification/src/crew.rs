//! Crew selection and the crew projections read surfaces render.
use vstd::prelude::*;

use crate::error::OrbitError;
use crate::json::{JsonValue, json_get, json_str, str_field};
use crate::session_log::copy_strings;
use crate::text::{
    copy_string, lemma_lex_transitive, lemma_lex_trichotomy, lex_lt, non_blank,
    non_blank_owned, opt_string_view, opt_view, push_str, str_eq, str_lex_lt, strings_view,
    trim, is_blank, blank, trimmed,
};

verus! {

/// Where a selected crew name came from, highest precedence first.
#[derive(Debug, Clone, Copy, PartialEq, Eq, Structural)]
pub enum ProviderSource {
    Explicit,
    TaskConfig,
    WorkspaceDefault,
    EnvironmentDefault,
    SystemDefault,
}

/// The first tier that supplies a non-blank value, trimmed, with its tier.
pub open spec fn select_spec(
    explicit: Option<Seq<char>>,
    task_config: Option<Seq<char>>,
    workspace_default: Option<Seq<char>>,
    environment_default: Option<Seq<char>>,
    system_default: Option<Seq<char>>,
) -> Option<(Seq<char>, ProviderSource)> {
    if non_blank(explicit) is Some {
        Some((non_blank(explicit)->0, ProviderSource::Explicit))
    } else if non_blank(task_config) is Some {
        Some((non_blank(task_config)->0, ProviderSource::TaskConfig))
    } else if non_blank(workspace_default) is Some {
        Some((non_blank(workspace_default)->0, ProviderSource::WorkspaceDefault))
    } else if non_blank(environment_default) is Some {
        Some((non_blank(environment_default)->0, ProviderSource::EnvironmentDefault))
    } else if non_blank(system_default) is Some {
        Some((non_blank(system_default)->0, ProviderSource::SystemDefault))
    } else {
        None
    }
}

pub open spec fn selection_view(r: Option<(String, ProviderSource)>) -> Option<
    (Seq<char>, ProviderSource),
> {
    match r {
        Some((s, t)) => Some((s@, t)),
        None => None,
    }
}

/// Selects the crew name to dispatch by precedence: explicit > task config
/// > workspace default > environment default > system default. Blank values
/// are skipped; `None` only when no tier supplies a value.
pub fn select_crew_name(
    explicit: Option<&str>,
    task_config: Option<&str>,
    workspace_default: Option<&str>,
    environment_default: Option<&str>,
    system_default: Option<&str>,
) -> (r: Option<(String, ProviderSource)>)
    ensures
        selection_view(r) == select_spec(
            opt_view(explicit),
            opt_view(task_config),
            opt_view(workspace_default),
            opt_view(environment_default),
            opt_view(system_default),
        ),
{
    if let Some(v) = non_blank_owned(explicit) {
        return Some((v, ProviderSource::Explicit));
    }
    if let Some(v) = non_blank_owned(task_config) {
        return Some((v, ProviderSource::TaskConfig));
    }
    if let Some(v) = non_blank_owned(workspace_default) {
        return Some((v, ProviderSource::WorkspaceDefault));
    }
    if let Some(v) = non_blank_owned(environment_default) {
        return Some((v, ProviderSource::EnvironmentDefault));
    }
    if let Some(v) = non_blank_owned(system_default) {
        return Some((v, ProviderSource::SystemDefault));
    }
    None
}

/// The message when no tier names a crew for a task.
pub open spec fn no_crew_message() -> Seq<char> {
    "no crew selected; set [workflow].default_crew, task.crew, or pass crew"@
}

/// The crew name a task dispatches under: explicit > task crew > the
/// configured default. Lower tiers are already folded into the default.
pub fn select_crew_for_task(
    cli_override: Option<&str>,
    task_crew: Option<&str>,
    default_crew: Option<&str>,
) -> (r: Result<String, OrbitError>)
    ensures
        match select_spec(opt_view(cli_override), opt_view(task_crew), opt_view(default_crew), None, None) {
            Some((name, _)) => r is Ok && r->Ok_0@ == name,
            None => r matches Err(OrbitError::InvalidInput(m)) && m@ == no_crew_message(),
        },
{
    match select_crew_name(cli_override, task_crew, default_crew, None, None) {
        Some((name, _)) => Ok(name),
        None => Err(
            OrbitError::InvalidInput(
                copy_string("no crew selected; set [workflow].default_crew, task.crew, or pass crew"),
            ),
        ),
    }
}

/// Provider and model a crew dispatches to.
#[derive(Debug, Clone)]
pub struct CrewAssignment {
    pub provider: String,
    pub model: String,
}

/// A named crew of the runtime configuration.
#[derive(Debug, Clone)]
pub struct Crew {
    pub name: String,
    pub assignment: CrewAssignment,
    pub description: Option<String>,
    pub tags: Vec<String>,
}

/// Runtime crew registry projection for dashboard/API consumers.
#[derive(Debug, Clone)]
pub struct ConfiguredCrewRegistryProjection {
    pub default_crew: Option<String>,
    pub crews: Vec<ConfiguredCrewProjection>,
}

/// Named crew and model string from the active runtime configuration.
#[derive(Debug, Clone)]
pub struct ConfiguredCrewProjection {
    pub name: String,
    pub model: String,
    pub provider: String,
    pub description: Option<String>,
    pub tags: Vec<String>,
    pub is_default: bool,
}

pub struct ConfiguredCrewProjectionView {
    pub name: Seq<char>,
    pub model: Seq<char>,
    pub provider: Seq<char>,
    pub description: Option<Seq<char>>,
    pub tags: Seq<Seq<char>>,
    pub is_default: bool,
}

impl View for ConfiguredCrewProjection {
    type V = ConfiguredCrewProjectionView;

    open spec fn view(&self) -> ConfiguredCrewProjectionView {
        ConfiguredCrewProjectionView {
            name: self.name@,
            model: self.model@,
            provider: self.provider@,
            description: opt_string_view(self.description),
            tags: strings_view(self.tags@),
            is_default: self.is_default,
        }
    }
}

/// The projection of one configured crew.
pub open spec fn crew_projection_of(crew: Crew, is_default: bool) -> ConfiguredCrewProjectionView {
    ConfiguredCrewProjectionView {
        name: crew.name@,
        model: crew.assignment.model@,
        provider: crew.assignment.provider@,
        description: opt_string_view(crew.description),
        tags: strings_view(crew.tags@),
        is_default,
    }
}

pub fn copy_opt_string(v: &Option<String>) -> (r: Option<String>)
    ensures
        opt_string_view(r) == opt_string_view(*v),
{
    match v {
        Some(s) => Some(copy_string(s.as_str())),
        None => None,
    }
}

impl ConfiguredCrewProjection {
    pub fn from_crew(crew: &Crew, is_default: bool) -> (r: ConfiguredCrewProjection)
        ensures
            r@ == crew_projection_of(*crew, is_default),
    {
        ConfiguredCrewProjection {
            name: copy_string(crew.name.as_str()),
            model: copy_string(crew.assignment.model.as_str()),
            provider: copy_string(crew.assignment.provider.as_str()),
            description: copy_opt_string(&crew.description),
            tags: copy_strings(&crew.tags),
            is_default,
        }
    }

    fn duplicate(&self) -> (r: ConfiguredCrewProjection)
        ensures
            r@ == self@,
    {
        ConfiguredCrewProjection {
            name: copy_string(self.name.as_str()),
            model: copy_string(self.model.as_str()),
            provider: copy_string(self.provider.as_str()),
            description: copy_opt_string(&self.description),
            tags: copy_strings(&self.tags),
            is_default: self.is_default,
        }
    }
}

pub open spec fn projections_view(v: Seq<ConfiguredCrewProjection>) -> Seq<
    ConfiguredCrewProjectionView,
> {
    v.map_values(|p: ConfiguredCrewProjection| p@)
}

/// Ordered by name, equal names in either order.
pub open spec fn sorted_by_name(s: Seq<ConfiguredCrewProjectionView>) -> bool {
    forall|i: int, j: int|
        0 <= i < j < s.len() ==> !lex_lt(#[trigger] s[j].name, #[trigger] s[i].name)
}

/// Inserts `x` after every projection whose name is not greater than its own.
fn insert_by_name(out: &mut Vec<ConfiguredCrewProjection>, x: ConfiguredCrewProjection)
    requires
        sorted_by_name(projections_view(old(out)@)),
    ensures
        sorted_by_name(projections_view(final(out)@)),
        projections_view(final(out)@).to_multiset() == projections_view(
            old(out)@,
        ).to_multiset().insert(x@),
{
    let ghost s = projections_view(out@);
    let mut k: usize = 0;
    while k < out.len() && !str_lex_lt(x.name.as_str(), out[k].name.as_str())
        invariant
            k <= out.len(),
            s == projections_view(out@),
            forall|i: int| 0 <= i < k ==> !lex_lt(x@.name, #[trigger] s[i].name),
        decreases out.len() - k,
    {
        k += 1;
    }
    let ghost xv = x@;
    out.insert(k, x);
    let ghost t = projections_view(out@);
    assert(t =~= s.insert(k as int, xv));
    proof {
        s.insert_ensures(k as int, xv);
        assert forall|i: int, j: int| 0 <= i < j < t.len() implies !lex_lt(
            #[trigger] t[j].name,
            #[trigger] t[i].name,
        ) by {
            if j < k {
                assert(t[i] == s[i] && t[j] == s[j]);
            } else if j == k {
                assert(t[i] == s[i]);
            } else if i < k {
                assert(t[i] == s[i] && t[j] == s[j - 1]);
            } else if i == k {
                assert(t[j] == s[j - 1]);
                lemma_lex_trichotomy(s[k as int].name, xv.name);
                if lex_lt(s[j - 1].name, xv.name) && j - 1 > k {
                    lemma_lex_transitive(s[j - 1].name, xv.name, s[k as int].name);
                }
            } else {
                assert(t[i] == s[i - 1]);
                assert(t[j] == s[j - 1]);
            }
        }
        assert(t.remove(k as int) =~= s);
        broadcast use vstd::seq_lib::group_to_multiset_ensures;

        assert(t.to_multiset().remove(xv) =~= s.to_multiset());
        assert(t.contains(xv)) by {
            assert(t[k as int] == xv);
        }
        assert(t.to_multiset() =~= s.to_multiset().insert(xv));
    }
}

/// The configured crews projected for clients, ordered by name; a crew is
/// marked default when its name is exactly `default_crew`.
pub fn configured_crew_registry_projection(crews: &Vec<Crew>, default_crew: Option<&str>) -> (r:
    ConfiguredCrewRegistryProjection)
    ensures
        opt_string_view(r.default_crew) == opt_view(default_crew),
        sorted_by_name(projections_view(r.crews@)),
        projections_view(r.crews@).to_multiset() == crews@.map_values(
            |c: Crew| crew_projection_of(c, opt_view(default_crew) == Some(c.name@)),
        ).to_multiset(),
{
    let ghost f = |c: Crew| crew_projection_of(c, opt_view(default_crew) == Some(c.name@));
    let mut out: Vec<ConfiguredCrewProjection> = Vec::new();
    proof {
        broadcast use vstd::seq_lib::group_to_multiset_ensures;

        assert(projections_view(out@) =~= Seq::<ConfiguredCrewProjectionView>::empty());
        assert(crews@.subrange(0, 0).map_values(f) =~= Seq::<ConfiguredCrewProjectionView>::empty());
        assert(projections_view(out@).to_multiset().len() == 0);
        assert(crews@.subrange(0, 0).map_values(f).to_multiset().len() == 0);
        assert(projections_view(out@).to_multiset() =~= crews@.subrange(0, 0).map_values(
            f,
        ).to_multiset());
    }
    let mut i: usize = 0;
    while i < crews.len()
        invariant
            i <= crews.len(),
            f == (|c: Crew| crew_projection_of(c, opt_view(default_crew) == Some(c.name@))),
            sorted_by_name(projections_view(out@)),
            projections_view(out@).to_multiset() == crews@.subrange(0, i as int).map_values(
                f,
            ).to_multiset(),
        decreases crews.len() - i,
    {
        let crew = &crews[i];
        let is_default = match default_crew {
            Some(d) => str_eq(d, crew.name.as_str()),
            None => false,
        };
        let p = ConfiguredCrewProjection::from_crew(crew, is_default);
        assert(p@ == f(crews@[i as int]));
        insert_by_name(&mut out, p);
        proof {
            broadcast use vstd::seq_lib::group_to_multiset_ensures;

            assert(crews@.subrange(0, i + 1).map_values(f) =~= crews@.subrange(
                0,
                i as int,
            ).map_values(f).push(f(crews@[i as int])));
        }
        i += 1;
    }
    assert(crews@.subrange(0, crews.len() as int) =~= crews@);
    let default_copy = match default_crew {
        Some(d) => Some(copy_string(d)),
        None => None,
    };
    ConfiguredCrewRegistryProjection { default_crew: default_copy, crews: out }
}

/// Crew/model strings to surface on a task projection.
#[derive(Debug, Clone, PartialEq, Eq)]
pub struct ResolvedCrewProjection {
    pub name: String,
    pub model: String,
}

impl ResolvedCrewProjection {
    pub fn from_crew(crew: Crew) -> (r: ResolvedCrewProjection)
        ensures
            r.name@ == crew.name@,
            r.model@ == crew.assignment.model@,
    {
        ResolvedCrewProjection { name: crew.name, model: crew.assignment.model }
    }
}

/// What a read surface renders for a task's crew.
#[derive(Debug, Clone, PartialEq, Eq)]
pub enum TaskCrewRead {
    /// Neither the task nor the workspace names a crew.
    Absent,
    /// The crew resolved to a concrete name/model pair.
    Resolved(ResolvedCrewProjection),
    /// A crew is named but this host cannot resolve it.
    Unresolved { reason: String },
}

/// Read surfaces always render the task: a projection failure downgrades to
/// `Unresolved` carrying the failure's message.
pub fn task_crew_read(projection: Result<Option<ResolvedCrewProjection>, OrbitError>) -> (r:
    TaskCrewRead)
    ensures
        match projection {
            Ok(Some(p)) => r == TaskCrewRead::Resolved(p),
            Ok(None) => r == TaskCrewRead::Absent,
            Err(e) => r matches TaskCrewRead::Unresolved { reason } && reason@ == e.msg(),
        },
{
    match projection {
        Ok(Some(p)) => TaskCrewRead::Resolved(p),
        Ok(None) => TaskCrewRead::Absent,
        Err(e) => TaskCrewRead::Unresolved { reason: e.message() },
    }
}

/// How a task's crew projection is obtained.
#[derive(Debug, Clone, PartialEq, Eq)]
pub enum CrewProjectionPlan {
    /// The run record persisted the selected crew; it wins.
    FromRun(ResolvedCrewProjection),
    /// Nothing names a crew: readers omit the fields.
    Absent,
    /// Resolve the task's crew (or the default) against the registry.
    Resolve,
}

/// The first step of `resolved_crew_projection`: the persisted run crew
/// wins when both its strings are present; otherwise resolution is needed
/// only when the task or the workspace names a crew.
pub fn crew_projection_plan(
    run_resolved_crew: Option<String>,
    run_crew_model: Option<String>,
    task_crew: Option<&str>,
    default_crew: Option<&str>,
) -> (r: CrewProjectionPlan)
    ensures
        (run_resolved_crew is Some && run_crew_model is Some) ==> r == CrewProjectionPlan::FromRun(
            ResolvedCrewProjection { name: run_resolved_crew->0, model: run_crew_model->0 },
        ),
        !(run_resolved_crew is Some && run_crew_model is Some) ==> (r == if task_crew is None
            && default_crew is None {
            CrewProjectionPlan::Absent
        } else {
            CrewProjectionPlan::Resolve
        }),
{
    match (run_resolved_crew, run_crew_model) {
        (Some(name), Some(model)) => CrewProjectionPlan::FromRun(
            ResolvedCrewProjection { name, model },
        ),
        _ => {
            if task_crew.is_none() && default_crew.is_none() {
                CrewProjectionPlan::Absent
            } else {
                CrewProjectionPlan::Resolve
            }
        },
    }
}

/// `value.trim()` when it is not empty.
pub fn non_empty(value: &str) -> (r: Option<String>)
    ensures
        opt_string_view(r) == non_blank(Some(value@)),
{
    if blank(value) {
        None
    } else {
        Some(trimmed(value))
    }
}

/// A task's stored crew with blank values unset.
pub fn normalized_task_crew(crew: Option<&str>) -> (r: Option<String>)
    ensures
        opt_string_view(r) == non_blank(opt_view(crew)),
{
    non_blank_owned(crew)
}

pub open spec fn bundle_crew_text(crew: Option<Seq<char>>) -> Seq<char> {
    match crew {
        Some(name) => "`"@ + name + "`"@,
        None => "the workspace default (no task.crew)"@,
    }
}

pub fn format_bundle_crew(crew: Option<&str>) -> (s: String)
    ensures
        s@ == bundle_crew_text(opt_view(crew)),
{
    match crew {
        Some(name) => {
            let mut s = String::new();
            push_str(&mut s, "`");
            push_str(&mut s, name);
            push_str(&mut s, "`");
            s
        },
        None => copy_string("the workspace default (no task.crew)"),
    }
}

pub open spec fn mixed_bundle_message(left: Option<Seq<char>>, right: Option<Seq<char>>) -> Seq<
    char,
> {
    "task bundle mixes crews "@ + bundle_crew_text(left) + " and "@ + bundle_crew_text(right)
        + "; split the bundle or assign one crew instead of inheriting workflow.default_crew"@
}

pub fn mixed_bundle_crew_error(left: Option<&str>, right: Option<&str>) -> (s: String)
    ensures
        s@ == mixed_bundle_message(opt_view(left), opt_view(right)),
{
    let mut s = String::new();
    push_str(&mut s, "task bundle mixes crews ");
    let l = format_bundle_crew(left);
    push_str(&mut s, l.as_str());
    push_str(&mut s, " and ");
    let r = format_bundle_crew(right);
    push_str(&mut s, r.as_str());
    push_str(
        &mut s,
        "; split the bundle or assign one crew instead of inheriting workflow.default_crew",
    );
    s
}

/// The crew a bundle agrees on so far: `Ok(None)` before any task, or the
/// two disagreeing crews.
pub open spec fn bundle_agreement(crews: Seq<Option<Seq<char>>>) -> Result<
    Option<Option<Seq<char>>>,
    (Option<Seq<char>>, Option<Seq<char>>),
>
    decreases crews.len(),
{
    if crews.len() == 0 {
        Ok(None)
    } else {
        let c = non_blank(crews.last());
        match bundle_agreement(crews.drop_last()) {
            Err(e) => Err(e),
            Ok(None) => Ok(Some(c)),
            Ok(Some(existing)) => if existing == c {
                Ok(Some(existing))
            } else {
                Err((existing, c))
            },
        }
    }
}

pub open spec fn opt_strings_view(v: Seq<Option<String>>) -> Seq<Option<Seq<char>>> {
    v.map_values(|o: Option<String>| opt_string_view(o))
}

pub open spec fn flatten_agreement(a: Option<Option<Seq<char>>>) -> Option<Seq<char>> {
    match a {
        Some(Some(c)) => Some(c),
        _ => None,
    }
}

/// The unanimous crew of the tasks a run names, given the stored crew of
/// each task found, in order. Distinct crews, including a mix of set and
/// unset, fail closed instead of inheriting the workspace default.
pub fn task_crew_from_bundle(crews: &Vec<Option<String>>) -> (r: Result<Option<String>, OrbitError>)
    ensures
        match bundle_agreement(opt_strings_view(crews@)) {
            Ok(a) => r is Ok && opt_string_view(r->Ok_0) == flatten_agreement(a),
            Err((x, y)) => r matches Err(OrbitError::InvalidInput(m)) && m@
                == mixed_bundle_message(x, y),
        },
{
    let ghost cv = opt_strings_view(crews@);
    let mut agreed: Option<Option<String>> = None;
    let mut i: usize = 0;
    while i < crews.len()
        invariant
            i <= crews.len(),
            cv == opt_strings_view(crews@),
            bundle_agreement(cv.subrange(0, i as int)) == Ok::<
                Option<Option<Seq<char>>>,
                (Option<Seq<char>>, Option<Seq<char>>),
            >(
                match agreed {
                    Some(a) => Some(opt_string_view(a)),
                    None => None,
                },
            ),
        decreases crews.len() - i,
    {
        let crew = match &crews[i] {
            Some(s) => normalized_task_crew(Some(s.as_str())),
            None => None,
        };
        assert(cv.subrange(0, i + 1).drop_last() =~= cv.subrange(0, i as int));
        assert(cv.subrange(0, i + 1).last() == opt_string_view(crews@[i as int]));
        match &agreed {
            None => {
                agreed = Some(crew);
            },
            Some(existing) => {
                let same = match (existing, &crew) {
                    (Some(a), Some(b)) => str_eq(a.as_str(), b.as_str()),
                    (None, None) => true,
                    _ => false,
                };
                if !same {
                    let left = match existing {
                        Some(a) => Some(a.as_str()),
                        None => None,
                    };
                    let right = match &crew {
                        Some(b) => Some(b.as_str()),
                        None => None,
                    };
                    let m = mixed_bundle_crew_error(left, right);
                    proof {
                        lemma_bundle_error_sticks(cv, i as int);
                    }
                    return Err(OrbitError::InvalidInput(m));
                }
            },
        }
        i += 1;
    }
    assert(cv.subrange(0, crews.len() as int) =~= cv);
    match agreed {
        Some(Some(c)) => Ok(Some(c)),
        _ => Ok(None),
    }
}

proof fn lemma_bundle_error_sticks(crews: Seq<Option<Seq<char>>>, i: int)
    requires
        0 <= i < crews.len(),
        bundle_agreement(crews.subrange(0, i + 1)) is Err,
    ensures
        bundle_agreement(crews) == bundle_agreement(crews.subrange(0, i + 1)),
    decreases crews.len() - i,
{
    if i + 1 < crews.len() {
        assert(crews.subrange(0, i + 2).drop_last() =~= crews.subrange(0, i + 1));
        lemma_bundle_error_sticks(crews, i + 1);
    } else {
        assert(crews.subrange(0, i + 1) =~= crews);
    }
}

/// A bundle whose tasks all carry the same (normalized) crew resolves to it.
pub proof fn law_unanimous_bundle_agrees(crews: Seq<Option<Seq<char>>>, c: Option<Seq<char>>)
    requires
        crews.len() > 0,
        forall|i: int| 0 <= i < crews.len() ==> non_blank(#[trigger] crews[i]) == c,
    ensures
        bundle_agreement(crews) == Ok::<
            Option<Option<Seq<char>>>,
            (Option<Seq<char>>, Option<Seq<char>>),
        >(Some(c)),
    decreases crews.len(),
{
    if crews.len() > 1 {
        assert forall|i: int| 0 <= i < crews.drop_last().len() implies non_blank(
            #[trigger] crews.drop_last()[i],
        ) == c by {
            assert(crews.drop_last()[i] == crews[i]);
        }
        law_unanimous_bundle_agrees(crews.drop_last(), c);
        assert(crews.last() == crews[crews.len() - 1]);
        assert(non_blank(crews[crews.len() - 1]) == c);
    } else {
        assert(crews.drop_last().len() == 0);
        assert(bundle_agreement(crews.drop_last()) == Ok::<
            Option<Option<Seq<char>>>,
            (Option<Seq<char>>, Option<Seq<char>>),
        >(None));
        assert(crews.last() == crews[0]);
        assert(non_blank(crews[0]) == c);
    }
}

/// Two tasks with different (normalized) crews make the bundle fail closed.
pub proof fn law_mixed_bundle_fails(crews: Seq<Option<Seq<char>>>, i: int, j: int)
    requires
        0 <= i < j < crews.len(),
        non_blank(crews[i]) != non_blank(crews[j]),
    ensures
        bundle_agreement(crews) is Err,
    decreases crews.len(),
{
    if j < crews.len() - 1 {
        assert(crews.drop_last()[i] == crews[i]);
        assert(crews.drop_last()[j] == crews[j]);
        law_mixed_bundle_fails(crews.drop_last(), i, j);
    } else {
        lemma_agreement_witness(crews.drop_last(), i);
    }
}

proof fn lemma_agreement_witness(crews: Seq<Option<Seq<char>>>, i: int)
    requires
        0 <= i < crews.len(),
    ensures
        bundle_agreement(crews) is Err || bundle_agreement(crews) == Ok::<
            Option<Option<Seq<char>>>,
            (Option<Seq<char>>, Option<Seq<char>>),
        >(Some(non_blank(crews[i]))),
    decreases crews.len(),
{
    if crews.len() > 1 {
        if i < crews.len() - 1 {
            assert(crews.drop_last()[i] == crews[i]);
            lemma_agreement_witness(crews.drop_last(), i);
        } else {
            lemma_agreement_witness(crews.drop_last(), 0);
        }
    }
}

/// `input.get("crew")` trimmed, when it is a non-blank string.
pub fn crew_override_from_input(input: &JsonValue) -> (r: Option<String>)
    ensures
        opt_string_view(r) == non_blank(str_field(*input, "crew"@)),
{
    match input.get("crew") {
        Some(v) => match v.as_text() {
            Some(s) => non_empty(s.as_str()),
            None => None,
        },
        None => None,
    }
}

/// The `id` string of the `task` object of an input.
pub open spec fn task_object_id(input: JsonValue) -> Option<Seq<char>> {
    match json_get(input, "task"@) {
        Some(task) => str_field(task, "id"@),
        None => None,
    }
}

/// The string items of the `task_ids` array of an input, `None` for items
/// that are not strings.
pub open spec fn task_id_items(input: JsonValue) -> Seq<Option<Seq<char>>> {
    match json_get(input, "task_ids"@) {
        Some(JsonValue::Array(items)) => items@.map_values(|v: JsonValue| json_str(Some(v))),
        _ => Seq::empty(),
    }
}

/// Adds a non-blank raw id (trimmed) unless it is already listed.
pub open spec fn push_id(ids: Seq<Seq<char>>, raw: Option<Seq<char>>) -> Seq<Seq<char>> {
    match non_blank(raw) {
        Some(id) => if ids.contains(id) {
            ids
        } else {
            ids.push(id)
        },
        None => ids,
    }
}

pub open spec fn push_ids(ids: Seq<Seq<char>>, raws: Seq<Option<Seq<char>>>) -> Seq<Seq<char>>
    decreases raws.len(),
{
    if raws.len() == 0 {
        ids
    } else {
        push_id(push_ids(ids, raws.drop_last()), raws.last())
    }
}

/// `task_id`, then `task.id`, then each `task_ids` item, deduplicated.
pub open spec fn crew_resolution_ids(input: JsonValue) -> Seq<Seq<char>> {
    push_ids(
        push_id(push_id(Seq::empty(), str_field(input, "task_id"@)), task_object_id(input)),
        task_id_items(input),
    )
}

fn push_unique(ids: &mut Vec<String>, raw: Option<&String>)
    ensures
        strings_view(final(ids)@) == push_id(
            strings_view(old(ids)@),
            match raw {
                Some(r) => Some(r@),
                None => None,
            },
        ),
{
    let ghost rawv = match raw {
        Some(r) => Some(r@),
        None => None,
    };
    let id = match raw {
        Some(r) => non_empty(r.as_str()),
        None => None,
    };
    match id {
        None => {},
        Some(id) => {
            let ghost sv = strings_view(ids@);
            let mut k: usize = 0;
            let mut found = false;
            while k < ids.len() && !found
                invariant
                    k <= ids.len(),
                    sv == strings_view(ids@),
                    found ==> sv.contains(id@),
                    !found ==> forall|j: int| 0 <= j < k ==> sv[j] != id@,
                decreases ids.len() - k, if found { 0int } else { 1int },
            {
                if str_eq(ids[k].as_str(), id.as_str()) {
                    assert(sv[k as int] == id@);
                    found = true;
                } else {
                    k += 1;
                }
            }
            if !found {
                let ghost idv = id@;
                ids.push(id);
                assert(strings_view(ids@) =~= sv.push(idv));
            }
        },
    }
}

/// The task ids a run or activity input names for crew resolution.
pub fn task_ids_for_crew_resolution(input: &JsonValue) -> (r: Vec<String>)
    ensures
        strings_view(r@) == crew_resolution_ids(*input),
{
    let mut ids: Vec<String> = Vec::new();
    assert(strings_view(ids@) =~= Seq::<Seq<char>>::empty());
    push_unique(&mut ids, crate::json::get_str(input, "task_id"));
    let task_id = match input.get("task") {
        Some(task) => crate::json::get_str(task, "id"),
        None => None,
    };
    push_unique(&mut ids, task_id);
    let ghost base = strings_view(ids@);
    match input.get("task_ids") {
        Some(JsonValue::Array(items)) => {
            let ghost raws = items@.map_values(|v: JsonValue| json_str(Some(v)));
            let mut i: usize = 0;
            while i < items.len()
                invariant
                    i <= items.len(),
                    raws == items@.map_values(|v: JsonValue| json_str(Some(v))),
                    strings_view(ids@) == push_ids(base, raws.subrange(0, i as int)),
                decreases items.len() - i,
            {
                let item = match &items[i] {
                    JsonValue::Str(s) => Some(s),
                    _ => None,
                };
                assert(raws.subrange(0, i + 1).drop_last() =~= raws.subrange(0, i as int));
                push_unique(&mut ids, item);
                i += 1;
            }
            assert(raws.subrange(0, items.len() as int) =~= raws);
        },
        _ => {},
    }
    ids
}

/// The single task an input identifies: `task_id`, else `task.id`, else the
/// only item of a one-element `task_ids`.
pub open spec fn singular_task_id(input: JsonValue) -> Option<Seq<char>> {
    if non_blank(str_field(input, "task_id"@)) is Some {
        non_blank(str_field(input, "task_id"@))
    } else if non_blank(task_object_id(input)) is Some {
        non_blank(task_object_id(input))
    } else {
        match json_get(input, "task_ids"@) {
            Some(JsonValue::Array(items)) => if items@.len() == 1 {
                non_blank(json_str(Some(items@[0])))
            } else {
                None
            },
            _ => None,
        }
    }
}

pub fn singular_task_id_from_input(input: &JsonValue) -> (r: Option<String>)
    ensures
        opt_string_view(r) == singular_task_id(*input),
{
    match crate::json::get_str(input, "task_id") {
        Some(s) => {
            let v = non_empty(s.as_str());
            if v.is_some() {
                return v;
            }
        },
        None => {},
    }
    match input.get("task") {
        Some(task) => match crate::json::get_str(task, "id") {
            Some(s) => {
                let v = non_empty(s.as_str());
                if v.is_some() {
                    return v;
                }
            },
            None => {},
        },
        None => {},
    }
    match input.get("task_ids") {
        Some(JsonValue::Array(items)) => {
            if items.len() == 1 {
                match &items[0] {
                    JsonValue::Str(s) => non_empty(s.as_str()),
                    _ => None,
                }
            } else {
                None
            }
        },
        _ => None,
    }
}

} // verus!
