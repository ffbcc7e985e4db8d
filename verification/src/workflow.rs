//! The workflow-executor format (GitHub Actions style) and the conversion of a
//! GitLab pipeline into it.
use vstd::prelude::*;
use vstd::string::*;
use crate::models::{
    distinct_names, first_named, lemma_value_of, map_of, names_of, NamedMap, Pipeline,
    Service as GitlabService,
};
use crate::models::Job as GitlabJob;
use crate::text::{concat3, texts};
use crate::yaml::{Yaml, YamlValue};

verus! {

/// A workflow definition for the workflow executor.
#[derive(Debug, Clone)]
pub struct WorkflowDefinition {
    pub name: String,
    pub on: Vec<String>,
    pub on_raw: YamlValue,
    pub jobs: NamedMap<Job>,
    pub defaults: Option<YamlValue>,
    pub env: NamedMap<String>,
}

/// A job of a workflow definition.
#[derive(Debug, Clone)]
pub struct Job {
    pub runs_on: Option<Vec<String>>,
    pub needs: Option<Vec<String>>,
    pub container: Option<YamlValue>,
    pub steps: Vec<Step>,
    pub env: NamedMap<String>,
    pub strategy: Option<YamlValue>,
    pub services: NamedMap<Service>,
    pub if_condition: Option<String>,
    pub outputs: Option<NamedMap<String>>,
    pub permissions: Option<YamlValue>,
    pub uses: Option<String>,
    pub with: Option<NamedMap<String>>,
    pub secrets: Option<YamlValue>,
    pub timeout_minutes: Option<u32>,
    pub defaults: Option<YamlValue>,
}

/// A step of a workflow job.
#[derive(Debug, Clone)]
pub struct Step {
    pub name: Option<String>,
    pub uses: Option<String>,
    pub run: Option<String>,
    pub continue_on_error: Option<bool>,
}

/// A service container of a workflow job.
#[derive(Debug, Clone)]
pub struct Service {
    pub image: String,
    pub ports: Option<Vec<String>>,
    pub env: NamedMap<String>,
    pub volumes: Option<Vec<String>>,
    pub options: Option<String>,
}

impl Step {
    /// A step that runs `run`, named `name`.
    pub fn with_run(name: String, run: String) -> (r: Step)
        ensures
            r.name == Some(name),
            r.run == Some(run),
            r.uses is None,
            r.continue_on_error is None,
    {
        Step { name: Some(name), uses: None, run: Some(run), continue_on_error: None }
    }
}

// ---------------------------------------------------------------------------
// Decimal text of numbers

pub open spec fn digit_char(d: nat) -> char {
    "0123456789"@[d as int]
}

/// The decimal text of a number.
pub open spec fn decimal(n: nat) -> Seq<char>
    decreases n,
{
    if n < 10 {
        seq![digit_char(n)]
    } else {
        decimal(n / 10).push(digit_char(n % 10))
    }
}

pub fn decimal_string(n: usize) -> (r: String)
    ensures
        r@ == decimal(n as nat),
    decreases n,
{
    let digits = "0123456789";
    proof {
        reveal_strlit("0123456789");
    }
    if n < 10 {
        let d = digits.substring_char(n, n + 1);
        assert(d@ =~= seq![digit_char(n as nat)]);
        String::from_str(d)
    } else {
        let mut s = decimal_string(n / 10);
        let d = digits.substring_char(n % 10, n % 10 + 1);
        assert(d@ =~= seq![digit_char((n % 10) as nat)]);
        s.append(d);
        assert(s@ =~= decimal((n / 10) as nat).push(digit_char((n % 10) as nat)));
        s
    }
}

proof fn lemma_decimal_len(n: nat)
    ensures
        n < 10 ==> decimal(n).len() == 1,
        n >= 10 ==> decimal(n).len() >= 2,
    decreases n,
{
    if n >= 10 {
        lemma_decimal_len(n / 10);
    }
}

/// Different numbers have different decimal texts.
pub proof fn lemma_decimal_injective(a: nat, b: nat)
    requires
        decimal(a) == decimal(b),
    ensures
        a == b,
    decreases a,
{
    reveal_strlit("0123456789");
    lemma_decimal_len(a);
    lemma_decimal_len(b);
    if a < 10 && b < 10 {
        assert(decimal(a)[0] == digit_char(a));
        assert(decimal(b)[0] == digit_char(b));
    } else if a >= 10 && b >= 10 {
        assert(decimal(a).drop_last() == decimal(a / 10));
        assert(decimal(b).drop_last() == decimal(b / 10));
        assert(decimal(a).last() == digit_char(a % 10));
        assert(decimal(b).last() == digit_char(b % 10));
        lemma_decimal_injective(a / 10, b / 10);
    }
}

// ---------------------------------------------------------------------------
// Conversion

pub open spec fn opt_list(o: Option<Vec<String>>) -> Seq<String> {
    match o {
        Some(v) => v@,
        None => Seq::empty(),
    }
}

/// The step runs `run` under `name`, continuing on error as given.
pub open spec fn step_is(s: Step, name: Seq<char>, run: Seq<char>, continue_on_error: Option<bool>) -> bool {
    &&& s.name matches Some(n) && n@ == name
    &&& s.run matches Some(r) && r@ == run
    &&& s.uses is None
    &&& s.continue_on_error == continue_on_error
}

/// The steps are the before_script commands, then the script commands, then
/// the after_script commands (which continue on error), each numbered from 1.
pub open spec fn steps_converted(steps: Seq<Step>, gj: GitlabJob) -> bool {
    let b = opt_list(gj.before_script);
    let sc = opt_list(gj.script);
    let a = opt_list(gj.after_script);
    &&& steps.len() == b.len() + sc.len() + a.len()
    &&& forall|i: int| 0 <= i < b.len() ==> step_is(#[trigger] steps[i], "Before script "@ + decimal((i + 1) as nat), b[i]@, None)
    &&& forall|i: int|
        0 <= i < sc.len() ==> step_is(#[trigger] steps[b.len() + i], "Run script line "@ + decimal((i + 1) as nat), sc[i]@, None)
    &&& forall|i: int|
        0 <= i < a.len() ==> step_is(#[trigger] steps[b.len() + sc.len() + i], "After script "@ + decimal((i + 1) as nat), a[i]@, Some(true))
}

/// The image that a GitLab service names.
pub open spec fn service_image(s: GitlabService) -> Seq<char> {
    match s {
        GitlabService::Simple(name) => name@,
        GitlabService::Detailed { name, .. } => name@,
    }
}

pub open spec fn service_name(i: nat) -> Seq<char> {
    "service-"@ + decimal(i)
}

/// The services are `service-0`, `service-1`, ... running the images of the
/// job's services, with nothing else set.
pub open spec fn services_converted(services: NamedMap<Service>, gj: GitlabJob) -> bool {
    let ss = match gj.services {
        Some(v) => v@,
        None => Seq::empty(),
    };
    &&& distinct_names(services.entries@)
    &&& services.map_view().dom() == Set::new(|n: Seq<char>| exists|i: nat| i < ss.len() && n == service_name(i))
    &&& forall|i: nat|
        i < ss.len() ==> {
            let c = #[trigger] services.map_view()[service_name(i)];
            &&& c.image@ == service_image(ss[i as int])
            &&& c.ports is None
            &&& c.env.entries@.len() == 0
            &&& c.volumes is None
            &&& c.options is None
        }
}

/// The texts of a map of strings.
pub open spec fn string_map(m: NamedMap<String>) -> Map<Seq<char>, Seq<char>> {
    Map::new(|k: Seq<char>| m.map_view().dom().contains(k), |k: Seq<char>| m.map_view()[k]@)
}

pub open spec fn opt_string_map(m: Option<NamedMap<String>>) -> Map<Seq<char>, Seq<char>> {
    match m {
        Some(m) => string_map(m),
        None => Map::empty(),
    }
}

/// The job's environment holds the job's variables, and the pipeline's
/// variables that the job does not set.
pub open spec fn env_converted(env: NamedMap<String>, gj: GitlabJob, p: &Pipeline) -> bool {
    &&& distinct_names(env.entries@)
    &&& string_map(env) == opt_string_map(p.variables).union_prefer_right(opt_string_map(gj.variables))
}

/// A workflow job converted from a GitLab job of pipeline `p`.
pub open spec fn job_converted(wj: Job, gj: GitlabJob, p: &Pipeline) -> bool {
    &&& wj.runs_on matches Some(r) && texts(r@) == seq!["ubuntu-latest"@]
    &&& wj.needs is None
    &&& wj.container is None
    &&& steps_converted(wj.steps@, gj)
    &&& env_converted(wj.env, gj, p)
    &&& wj.strategy is None
    &&& services_converted(wj.services, gj)
    &&& wj.if_condition is None
    &&& wj.outputs is None
    &&& wj.permissions is None
    &&& wj.uses is None
    &&& wj.with is None
    &&& wj.secrets is None
    &&& wj.timeout_minutes is None
    &&& wj.defaults is None
}

/// The names of maps in the pipeline are distinct, as in the hash maps the
/// pipeline is read into.
pub open spec fn pipeline_maps_distinct(p: &Pipeline) -> bool {
    &&& p.jobs.wf()
    &&& (p.variables matches Some(v) ==> v.wf())
    &&& forall|i: int|
        0 <= i < p.jobs.entries@.len() ==> ((#[trigger] p.jobs.entries@[i]).1.variables matches Some(v)
            ==> v.wf())
}

/// Whether no two entries of the map have the same name.
pub fn names_distinct<V>(m: &NamedMap<V>) -> (r: bool)
    ensures
        r == distinct_names(m.entries@),
{
    let n = m.entries.len();
    let mut b: usize = 0;
    while b < n
        invariant
            b <= n,
            n == m.entries@.len(),
            forall|x: int, y: int| 0 <= x < y < b ==> (#[trigger] m.entries@[x]).0@ != (#[trigger] m.entries@[y]).0@,
        decreases n - b,
    {
        let mut a: usize = 0;
        while a < b
            invariant
                a <= b,
                b < n,
                n == m.entries@.len(),
                forall|x: int, y: int| 0 <= x < y < b ==> (#[trigger] m.entries@[x]).0@ != (#[trigger] m.entries@[y]).0@,
                forall|x: int| 0 <= x < a ==> (#[trigger] m.entries@[x]).0@ != m.entries@[b as int].0@,
            decreases b - a,
        {
            if m.entries[a].0.eq(&m.entries[b].0) {
                assert(!distinct_names(m.entries@)) by {
                    assert(m.entries@[a as int].0@ == m.entries@[b as int].0@);
                }
                return false;
            }
            a = a + 1;
        }
        b = b + 1;
    }
    true
}

/// Whether the pipeline's maps have distinct names, as a conversion needs.
pub fn pipeline_names_distinct(p: &Pipeline) -> (r: bool)
    ensures
        r == pipeline_maps_distinct(p),
{
    if !names_distinct(&p.jobs) {
        return false;
    }
    match &p.variables {
        Some(v) => {
            if !names_distinct(v) {
                return false;
            }
        },
        None => {},
    }
    let mut i: usize = 0;
    while i < p.jobs.entries.len()
        invariant
            i <= p.jobs.entries@.len(),
            distinct_names(p.jobs.entries@),
            p.variables matches Some(v) ==> distinct_names(v.entries@),
            forall|j: int|
                0 <= j < i ==> ((#[trigger] p.jobs.entries@[j]).1.variables matches Some(v) ==> distinct_names(v.entries@)),
        decreases p.jobs.entries@.len() - i,
    {
        match &p.jobs.entries[i].1.variables {
            Some(v) => {
                if !names_distinct(v) {
                    return false;
                }
            },
            None => {},
        }
        i = i + 1;
    }
    true
}

/// The workflow converted from pipeline `p`: one job per job of `p` that is
/// not a template, each converted; a fixed name and a `push` trigger.
pub open spec fn workflow_converted(w: WorkflowDefinition, p: &Pipeline) -> bool {
    &&& w.name@ == "Converted GitLab CI Pipeline"@
    &&& texts(w.on@) == seq!["push"@]
    &&& w.on_raw@ == Yaml::Str("push"@)
    &&& w.defaults is None
    &&& w.env.entries@.len() == 0
    &&& distinct_names(w.jobs.entries@)
    &&& w.jobs.map_view().dom() == p.jobs.map_view().dom().filter(
        |n: Seq<char>| p.jobs.map_view()[n].template != Some(true),
    )
    &&& forall|n: Seq<char>|
        #[trigger] w.jobs.map_view().dom().contains(n) ==> job_converted(w.jobs.map_view()[n], p.jobs.map_view()[n], p)
}


fn push_numbered_steps(
    steps: &mut Vec<Step>,
    commands: &Vec<String>,
    label: &str,
    continue_on_error: bool,
)
    ensures
        final(steps)@.len() == old(steps)@.len() + commands@.len(),
        forall|j: int| 0 <= j < old(steps)@.len() ==> #[trigger] final(steps)@[j] == old(steps)@[j],
        forall|i: int|
            0 <= i < commands@.len() ==> step_is(
                #[trigger] final(steps)@[old(steps)@.len() + i],
                label@ + decimal((i + 1) as nat),
                commands@[i]@,
                if continue_on_error { Some(true) } else { None },
            ),
{
    let ghost start = steps@;
    let mut i: usize = 0;
    while i < commands.len()
        invariant
            i <= commands@.len(),
            steps@.len() == start.len() + i,
            forall|j: int| 0 <= j < start.len() ==> #[trigger] steps@[j] == start[j],
            forall|k: int|
                0 <= k < i ==> step_is(
                    #[trigger] steps@[start.len() + k],
                    label@ + decimal((k + 1) as nat),
                    commands@[k]@,
                    if continue_on_error { Some(true) } else { None },
                ),
        decreases commands@.len() - i,
    {
        let number = decimal_string(i + 1);
        let mut name = String::from_str(label);
        name.append(number.as_str());
        let mut step = Step::with_run(name, commands[i].clone());
        if continue_on_error {
            step.continue_on_error = Some(true);
        }
        steps.push(step);
        i = i + 1;
    }
}

/// The steps of the converted job (see `steps_converted`).
fn convert_steps(gj: &GitlabJob) -> (r: Vec<Step>)
    ensures
        steps_converted(r@, *gj),
{
    let empty: Vec<String> = Vec::new();
    let mut steps: Vec<Step> = Vec::new();
    let b = match &gj.before_script {
        Some(v) => v,
        None => &empty,
    };
    let sc = match &gj.script {
        Some(v) => v,
        None => &empty,
    };
    let a = match &gj.after_script {
        Some(v) => v,
        None => &empty,
    };
    assert(b@ == opt_list(gj.before_script));
    assert(sc@ == opt_list(gj.script));
    assert(a@ == opt_list(gj.after_script));
    let ghost s0 = steps@;
    push_numbered_steps(&mut steps, b, "Before script ", false);
    let ghost s1 = steps@;
    push_numbered_steps(&mut steps, sc, "Run script line ", false);
    let ghost s2 = steps@;
    push_numbered_steps(&mut steps, a, "After script ", true);
    assert forall|i: int| 0 <= i < b@.len() implies step_is(
        #[trigger] steps@[i],
        "Before script "@ + decimal((i + 1) as nat),
        b@[i]@,
        None,
    ) by {
        assert(steps@[i] == s2[i]);
        assert(s2[i] == s1[i]);
        assert(s0.len() == 0);
        assert(step_is(s1[s0.len() + i], "Before script "@ + decimal((i + 1) as nat), b@[i]@, None));
    }
    assert forall|i: int| 0 <= i < sc@.len() implies step_is(
        #[trigger] steps@[b@.len() + i],
        "Run script line "@ + decimal((i + 1) as nat),
        sc@[i]@,
        None,
    ) by {
        assert(steps@[b@.len() + i] == s2[b@.len() + i]);
    }
    steps
}

/// The service containers of the converted job (see `services_converted`).
fn convert_services(gj: &GitlabJob) -> (r: NamedMap<Service>)
    ensures
        services_converted(r, *gj),
{
    let mut services: NamedMap<Service> = NamedMap::new();
    let empty: Vec<GitlabService> = Vec::new();
    let ss = match &gj.services {
        Some(v) => v,
        None => &empty,
    };
    let ghost sv = match &gj.services {
        Some(v) => v@,
        None => Seq::<GitlabService>::empty(),
    };
    assert(ss@ == sv);
    let mut i: usize = 0;
    assert(services.map_view().dom() =~= Set::<Seq<char>>::empty());
    while i < ss.len()
        invariant
            i <= sv.len(),
            ss@ == sv,
            distinct_names(services.entries@),
            services.map_view().dom() == Set::new(|n: Seq<char>| exists|j: nat| j < i && n == service_name(j)),
            forall|j: nat|
                j < i ==> {
                    let c = #[trigger] services.map_view()[service_name(j)];
                    &&& c.image@ == service_image(sv[j as int])
                    &&& c.ports is None
                    &&& c.env.entries@.len() == 0
                    &&& c.volumes is None
                    &&& c.options is None
                },
        decreases sv.len() - i,
    {
        let number = decimal_string(i);
        let mut name = String::from_str("service-");
        name.append(number.as_str());
        let image = match &ss[i] {
            GitlabService::Simple(n) => n.clone(),
            GitlabService::Detailed { name, .. } => name.clone(),
        };
        let container = Service { image, ports: None, env: NamedMap::new(), volumes: None, options: None };
        let ghost before = services.map_view();
        let ghost nm = name@;
        assert(nm == service_name(i as nat));
        services.insert(name, container);
        proof {
            assert forall|j: nat| j < i implies service_name(j) != service_name(i as nat) by {
                reveal_strlit("service-");
                if service_name(j) == service_name(i as nat) {
                    assert(service_name(j).skip(8) =~= decimal(j));
                    assert(service_name(i as nat).skip(8) =~= decimal(i as nat));
                    lemma_decimal_injective(j, i as nat);
                }
            }
            assert(services.map_view().dom() =~= Set::new(|n: Seq<char>| exists|j: nat| j < i + 1 && n == service_name(j))) by {
                assert forall|n: Seq<char>| #[trigger] services.map_view().dom().contains(n) implies exists|j: nat| j < i + 1 && n == service_name(j) by {
                    if n != nm {
                        assert(before.dom().contains(n));
                    }
                }
            }
        }
        i = i + 1;
    }
    services
}

proof fn lemma_distinct_first<V>(entries: Seq<(String, V)>, j: int)
    requires
        distinct_names(entries),
        0 <= j < entries.len(),
    ensures
        first_named(entries, entries[j].0@, j),
        map_of(entries)[entries[j].0@] == entries[j].1,
        map_of(entries).dom().contains(entries[j].0@),
{
    assert forall|k: int| 0 <= k < j implies #[trigger] entries[k].0@ != entries[j].0@ by {}
    lemma_value_of(entries, entries[j].0@, j);
    assert(names_of(entries)[j] == entries[j].0@);
}

proof fn lemma_distinct_prefix<V>(entries: Seq<(String, V)>, i: int)
    requires
        distinct_names(entries),
        0 <= i <= entries.len(),
    ensures
        distinct_names(entries.take(i)),
        i < entries.len() ==> !names_of(entries.take(i)).contains(entries[i].0@),
{
    let t = entries.take(i);
    assert forall|a: int, b: int| 0 <= a < b < t.len() implies (#[trigger] t[a]).0@ != (#[trigger] t[b]).0@ by {
        assert(t[a] == entries[a] && t[b] == entries[b]);
    }
    if i < entries.len() {
        if names_of(t).contains(entries[i].0@) {
            let k = choose|k: int| 0 <= k < names_of(t).len() && names_of(t)[k] == entries[i].0@;
            assert(t[k] == entries[k]);
        }
    }
}

/// The environment of the converted job (see `env_converted`).
fn convert_env(gj: &GitlabJob, pipeline: &Pipeline) -> (r: NamedMap<String>)
    requires
        gj.variables matches Some(v) ==> distinct_names(v.entries@),
        pipeline.variables matches Some(v) ==> distinct_names(v.entries@),
    ensures
        env_converted(r, *gj, pipeline),
{
    let mut env: NamedMap<String> = NamedMap::new();
    let ghost jmap = match &gj.variables {
        Some(v) => map_of(v.entries@),
        None => Map::<Seq<char>, String>::empty(),
    };
    assert(env.map_view() =~= Map::<Seq<char>, String>::empty());
    match &gj.variables {
        Some(vars) => {
            let mut i: usize = 0;
            let ghost es = vars.entries@;
            assert(es.take(0) =~= Seq::<(String, String)>::empty());
            assert(map_of(es.take(0)) =~= Map::<Seq<char>, String>::empty());
            while i < vars.entries.len()
                invariant
                    i <= es.len(),
                    es == vars.entries@,
                    distinct_names(es),
                    distinct_names(env.entries@),
                    env.map_view() == map_of(es.take(i as int)),
                decreases es.len() - i,
            {
                let k = vars.entries[i].0.clone();
                let v = vars.entries[i].1.clone();
                env.insert(k, v);
                proof {
                    lemma_distinct_prefix(es, i as int);
                    assert(es.take(i + 1) =~= es.take(i as int).push(es[i as int]));
                    crate::models::lemma_map_of_push(es.take(i as int), es[i as int].0, es[i as int].1);
                }
                i = i + 1;
            }
            assert(es.take(es.len() as int) =~= es);
        },
        None => {},
    }
    assert(env.map_view() == jmap);
    let ghost gmap = match &pipeline.variables {
        Some(v) => map_of(v.entries@),
        None => Map::<Seq<char>, String>::empty(),
    };
    match &pipeline.variables {
        Some(gvars) => {
            let mut i: usize = 0;
            let ghost gs = gvars.entries@;
            assert(gs.take(0) =~= Seq::<(String, String)>::empty());
            assert(map_of(gs.take(0)) =~= Map::<Seq<char>, String>::empty());
            assert(env.map_view() =~= map_of(gs.take(0)).union_prefer_right(jmap));
            while i < gvars.entries.len()
                invariant
                    i <= gs.len(),
                    gs == gvars.entries@,
                    distinct_names(gs),
                    distinct_names(env.entries@),
                    env.map_view() == map_of(gs.take(i as int)).union_prefer_right(jmap),
                decreases gs.len() - i,
            {
                let k = gvars.entries[i].0.clone();
                let v = gvars.entries[i].1.clone();
                let ghost before = env.map_view();
                env.insert_if_absent(k, v);
                proof {
                    lemma_distinct_prefix(gs, i as int);
                    assert(gs.take(i + 1) =~= gs.take(i as int).push(gs[i as int]));
                    crate::models::lemma_map_of_push(gs.take(i as int), gs[i as int].0, gs[i as int].1);
                    assert(env.map_view() =~= map_of(gs.take(i + 1)).union_prefer_right(jmap));
                }
                i = i + 1;
            }
            assert(gs.take(gs.len() as int) =~= gs);
        },
        None => {
            assert(env.map_view() =~= gmap.union_prefer_right(jmap));
        },
    }
    assert(env.map_view() == gmap.union_prefer_right(jmap));
    assert(string_map(env) =~= opt_string_map(pipeline.variables).union_prefer_right(opt_string_map(gj.variables)));
    env
}

/// A workflow job converted from the GitLab job `gj` of `pipeline`.
fn convert_job(gj: &GitlabJob, pipeline: &Pipeline) -> (r: Job)
    requires
        gj.variables matches Some(v) ==> distinct_names(v.entries@),
        pipeline.variables matches Some(v) ==> distinct_names(v.entries@),
    ensures
        job_converted(r, *gj, pipeline),
{
    let mut runs_on: Vec<String> = Vec::new();
    runs_on.push(String::from_str("ubuntu-latest"));
    assert(texts(runs_on@) =~= seq!["ubuntu-latest"@]);
    let steps = convert_steps(gj);
    let env = convert_env(gj, pipeline);
    let services = convert_services(gj);
    Job {
        runs_on: Some(runs_on),
        needs: None,
        container: None,
        steps,
        env,
        strategy: None,
        services,
        if_condition: None,
        outputs: None,
        permissions: None,
        uses: None,
        with: None,
        secrets: None,
        timeout_minutes: None,
        defaults: None,
    }
}

/// Convert a GitLab CI/CD pipeline to a format compatible with the workflow
/// executor.
///
/// The names of the pipeline's jobs and variables are distinct, as in the hash
/// maps that a pipeline document is read into.
pub fn convert_to_workflow_format(pipeline: &Pipeline) -> (r: WorkflowDefinition)
    requires
        pipeline_maps_distinct(pipeline),
    ensures
        workflow_converted(r, pipeline),
{
    let mut on: Vec<String> = Vec::new();
    on.push(String::from_str("push"));
    assert(texts(on@) =~= seq!["push"@]);
    let mut jobs: NamedMap<Job> = NamedMap::new();
    let ghost es = pipeline.jobs.entries@;
    let ghost pmap = pipeline.jobs.map_view();
    let mut i: usize = 0;
    assert(jobs.map_view().dom() =~= Set::<Seq<char>>::empty());
    while i < pipeline.jobs.entries.len()
        invariant
            i <= es.len(),
            es == pipeline.jobs.entries@,
            pmap == pipeline.jobs.map_view(),
            pipeline_maps_distinct(pipeline),
            distinct_names(jobs.entries@),
            jobs.map_view().dom() == Set::new(
                |n: Seq<char>| exists|j: int| 0 <= j < i && es[j].0@ == n && es[j].1.template != Some(true),
            ),
            forall|n: Seq<char>|
                #[trigger] jobs.map_view().dom().contains(n) ==> job_converted(jobs.map_view()[n], pmap[n], pipeline),
        decreases es.len() - i,
    {
        let entry = &pipeline.jobs.entries[i];
        proof {
            lemma_distinct_first(es, i as int);
        }
        let ghost before = jobs.map_view();
        let is_template = match entry.1.template {
            Some(t) => t,
            None => false,
        };
        if !is_template {
            let job = convert_job(&entry.1, pipeline);
            jobs.insert(entry.0.clone(), job);
        }
        proof {
            assert(jobs.map_view().dom() =~= Set::new(
                |n: Seq<char>| exists|j: int| 0 <= j < i + 1 && es[j].0@ == n && es[j].1.template != Some(true),
            )) by {
                assert forall|n: Seq<char>| #[trigger] jobs.map_view().dom().contains(n) implies exists|j: int|
                    0 <= j < i + 1 && es[j].0@ == n && es[j].1.template != Some(true) by {
                    if n != es[i as int].0@ || is_template {
                        assert(before.dom().contains(n));
                    }
                }
                assert forall|n: Seq<char>| (exists|j: int| 0 <= j < i + 1 && es[j].0@ == n && es[j].1.template != Some(true)) implies #[trigger] jobs.map_view().dom().contains(n) by {
                    let j = choose|j: int| 0 <= j < i + 1 && es[j].0@ == n && es[j].1.template != Some(true);
                    if j < i {
                        assert(before.dom().contains(n));
                    }
                }
            }
        }
        i = i + 1;
    }
    proof {
        let keep = |n: Seq<char>| pmap[n].template != Some(true);
        assert(jobs.map_view().dom() =~= pmap.dom().filter(keep)) by {
            assert forall|n: Seq<char>| #[trigger] pmap.dom().filter(keep).contains(n) implies jobs.map_view().dom().contains(n) by {
                let k = choose|k: int| 0 <= k < names_of(es).len() && names_of(es)[k] == n;
                lemma_distinct_first(es, k);
            }
            assert forall|n: Seq<char>| #[trigger] jobs.map_view().dom().contains(n) implies pmap.dom().filter(keep).contains(n) by {
                let j = choose|j: int| 0 <= j < es.len() && es[j].0@ == n && es[j].1.template != Some(true);
                lemma_distinct_first(es, j);
            }
        }
        assert(keep == (|n: Seq<char>| pmap[n].template != Some(true)));
    }
    WorkflowDefinition {
        name: String::from_str("Converted GitLab CI Pipeline"),
        on,
        on_raw: YamlValue::String(String::from_str("push")),
        jobs,
        defaults: None,
        env: NamedMap::new(),
    }
}

} // verus!
