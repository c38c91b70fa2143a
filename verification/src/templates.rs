//! Workspace templates: which sessions a new workspace starts with.
use vstd::prelude::*;
use crate::text::str_equal;

verus! {

/// One session a template spawns, and whether it goes straight into the arena.
#[derive(Debug, Clone)]
pub struct SessionSpec {
    pub name: String,
    pub promote: bool,
}

/// A named preset of sessions used to bootstrap a workspace.
#[derive(Debug, Clone)]
pub struct WorkspaceTemplate {
    pub name: &'static str,
    pub sessions: Vec<SessionSpec>,
}

/// The content of a `SessionSpec`.
pub struct SessionSpecView {
    pub name: Seq<char>,
    pub promote: bool,
}

/// The content of a `WorkspaceTemplate`.
#[verifier::ext_equal]
pub struct TemplateView {
    pub name: Seq<char>,
    pub sessions: Seq<SessionSpecView>,
}

impl View for SessionSpec {
    type V = SessionSpecView;

    open spec fn view(&self) -> SessionSpecView {
        SessionSpecView { name: self.name@, promote: self.promote }
    }
}

impl View for WorkspaceTemplate {
    type V = TemplateView;

    open spec fn view(&self) -> TemplateView {
        TemplateView { name: self.name@, sessions: self.sessions@.map_values(|s: SessionSpec| s@) }
    }
}

pub open spec fn spec_session(name: Seq<char>, promote: bool) -> SessionSpecView {
    SessionSpecView { name, promote }
}

/// The built-in templates, in the order they are offered.
pub open spec fn builtin_templates() -> Seq<TemplateView> {
    seq![
        TemplateView { name: "Empty"@, sessions: seq![spec_session("Shell"@, true)] },
        TemplateView {
            name: "Fullstack"@,
            sessions: seq![
                spec_session("API"@, true),
                spec_session("UI"@, true),
                spec_session("DB"@, true),
                spec_session("Tests"@, true),
                spec_session("Cloud Logs"@, false),
                spec_session("Git Monitor"@, false),
            ],
        },
        TemplateView {
            name: "Microservices"@,
            sessions: seq![
                spec_session("Gateway"@, true),
                spec_session("Auth"@, true),
                spec_session("Worker"@, true),
                spec_session("Queue"@, false),
                spec_session("Metrics"@, false),
            ],
        },
        TemplateView {
            name: "Dev"@,
            sessions: seq![spec_session("Editor"@, true), spec_session("Build"@, true)],
        },
    ]
}

/// The built-in template called `name`, if there is one.
pub open spec fn named_template(name: Seq<char>) -> Option<TemplateView> {
    let ts = builtin_templates();
    if exists|i: int| 0 <= i < ts.len() && ts[i].name == name {
        Some(ts[choose|i: int| 0 <= i < ts.len() && ts[i].name == name])
    } else {
        None
    }
}

/// No two built-in templates share a name.
pub proof fn lemma_template_names_distinct(i: int, j: int)
    requires
        0 <= i < builtin_templates().len(),
        0 <= j < builtin_templates().len(),
        i != j,
    ensures
        builtin_templates()[i].name != builtin_templates()[j].name,
{
    reveal_strlit("Empty");
    reveal_strlit("Fullstack");
    reveal_strlit("Microservices");
    reveal_strlit("Dev");
    let ts = builtin_templates();
    assert(ts[0].name.len() != ts[1].name.len());
    assert(ts[0].name.len() != ts[2].name.len());
    assert(ts[0].name.len() != ts[3].name.len());
    assert(ts[1].name.len() != ts[2].name.len());
    assert(ts[1].name.len() != ts[3].name.len());
    assert(ts[2].name.len() != ts[3].name.len());
}

/// Each built-in template is found again by its own name.
pub proof fn lemma_template_by_own_name(i: int)
    requires
        0 <= i < builtin_templates().len(),
    ensures
        named_template(builtin_templates()[i].name) == Some(builtin_templates()[i]),
{
    let ts = builtin_templates();
    let name = ts[i].name;
    assert(exists|k: int| 0 <= k < ts.len() && ts[k].name == name);
    let k = choose|k: int| 0 <= k < ts.len() && ts[k].name == name;
    if k != i {
        lemma_template_names_distinct(k, i);
    }
}

fn session(name: &str, promote: bool) -> (r: SessionSpec)
    ensures
        r@ == spec_session(name@, promote),
{
    SessionSpec { name: String::from_str(name), promote }
}

fn template(name: &'static str, sessions: Vec<SessionSpec>) -> (r: WorkspaceTemplate)
    ensures
        r@.name == name@,
        r.sessions@ == sessions@,
{
    WorkspaceTemplate { name, sessions }
}

impl WorkspaceTemplate {
    /// All built-in templates: Empty, Fullstack, Microservices, Dev.
    pub fn all() -> (r: Vec<WorkspaceTemplate>)
        ensures
            r@.map_values(|t: WorkspaceTemplate| t@) == builtin_templates(),
    {
        let mut empty: Vec<SessionSpec> = Vec::new();
        empty.push(session("Shell", true));

        let mut fullstack: Vec<SessionSpec> = Vec::new();
        fullstack.push(session("API", true));
        fullstack.push(session("UI", true));
        fullstack.push(session("DB", true));
        fullstack.push(session("Tests", true));
        fullstack.push(session("Cloud Logs", false));
        fullstack.push(session("Git Monitor", false));

        let mut micro: Vec<SessionSpec> = Vec::new();
        micro.push(session("Gateway", true));
        micro.push(session("Auth", true));
        micro.push(session("Worker", true));
        micro.push(session("Queue", false));
        micro.push(session("Metrics", false));

        let mut dev: Vec<SessionSpec> = Vec::new();
        dev.push(session("Editor", true));
        dev.push(session("Build", true));

        let t0 = template("Empty", empty);
        let t1 = template("Fullstack", fullstack);
        let t2 = template("Microservices", micro);
        let t3 = template("Dev", dev);
        proof {
            assert(t0@ =~= builtin_templates()[0]);
            assert(t1@ =~= builtin_templates()[1]);
            assert(t2@ =~= builtin_templates()[2]);
            assert(t3@ =~= builtin_templates()[3]);
        }
        let mut r: Vec<WorkspaceTemplate> = Vec::new();
        r.push(t0);
        r.push(t1);
        r.push(t2);
        r.push(t3);
        assert(r@.map_values(|t: WorkspaceTemplate| t@) =~= builtin_templates());
        r
    }

    /// The built-in template whose name is `name`, or `None`.
    pub fn by_name(name: &str) -> (r: Option<WorkspaceTemplate>)
        ensures
            match r {
                Some(t) => named_template(name@) == Some(t@),
                None => named_template(name@) is None,
            },
    {
        let mut all = Self::all();
        let ghost ts = builtin_templates();
        assert(all@.len() == 4) by {
            assert(all@.map_values(|t: WorkspaceTemplate| t@).len() == 4);
        }
        let mut i: usize = 0;
        while i < all.len()
            invariant
                all@.map_values(|t: WorkspaceTemplate| t@) == ts,
                ts == builtin_templates(),
                all@.len() == ts.len(),
                i <= all@.len(),
                forall|j: int| 0 <= j < i ==> ts[j].name != name@,
            decreases all.len() - i,
        {
            assert(all@[i as int]@ == ts[i as int]) by {
                assert(all@.map_values(|t: WorkspaceTemplate| t@)[i as int] == all@[i as int]@);
            }
            if str_equal(all[i].name, name) {
                let t = all.remove(i);
                proof {
                    let k = choose|k: int| 0 <= k < ts.len() && ts[k].name == name@;
                    assert(ts[i as int].name == name@);
                    if k != i {
                        lemma_template_names_distinct(k, i as int);
                    }
                }
                return Some(t);
            }
            i = i + 1;
        }
        None
    }
}

} // verus!
