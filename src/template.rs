//! Request templates: `{{name}}` substitution with environment overlays,
//! defaults and required-variable checks.

use vstd::prelude::*;
use vstd::string::*;
use crate::error::TerziError;
use crate::request::{copy_opt, opt_view, RequestView, SavedRequest};
use crate::table::{has_key, index_of, keys_unique, lemma_index_of, Table};
use crate::text::{find_from, find_spec, occurs_at, occurs_at_exec, owned, push_char};

verus! {

/// What a substitution produces from `t` at position `i` onward: each
/// `{{name}}` whose `name` is a key of `m` becomes `m[name]`; every other
/// character is kept. Replaced text is not scanned again.
pub open spec fn subst_from(t: Seq<char>, m: Map<Seq<char>, Seq<char>>, i: int) -> Seq<char>
    decreases t.len() - i,
{
    if i < 0 || i >= t.len() {
        Seq::empty()
    } else {
        let close = if occurs_at(t, "{{"@, i) {
            find_spec(t, "}}"@, i + 2)
        } else {
            None
        };
        if close is Some && i + 2 <= close->Some_0 && close->Some_0 + 2 <= t.len()
            && m.contains_key(t.subrange(i + 2, close->Some_0)) {
            m[t.subrange(i + 2, close->Some_0)] + subst_from(t, m, close->Some_0 + 2)
        } else {
            seq![t[i]] + subst_from(t, m, i + 1)
        }
    }
}

/// The whole of `t` after substitution.
pub open spec fn substituted(t: Seq<char>, m: Map<Seq<char>, Seq<char>>) -> Seq<char> {
    subst_from(t, m, 0)
}

/// The first `{{...}}` token of `t`, scanning left to right.
pub open spec fn unresolved(t: Seq<char>) -> Option<Seq<char>> {
    match find_spec(t, "{{"@, 0) {
        Some(s) => match find_spec(t, "}}"@, s + 2) {
            Some(e) => Some(t.subrange(s, e + 2)),
            None => None,
        },
        None => None,
    }
}

/// Substitution followed by the unresolved-token check: the text, or the token.
pub open spec fn replaced(t: Seq<char>, m: Map<Seq<char>, Seq<char>>) -> Result<
    Seq<char>,
    Seq<char>,
> {
    match unresolved(substituted(t, m)) {
        Some(tok) => Err(tok),
        None => Ok(substituted(t, m)),
    }
}

/// Replaces each `{{name}}` of `text` whose name is a key of `vars`.
pub fn substitute(text: &str, vars: &Table<String>) -> (r: String)
    requires
        vars.wf(),
    ensures
        r@ == substituted(text@, vars@),
{
    let ghost t = text@;
    let ghost m = vars@;
    let n = text.unicode_len();
    let mut out = String::new();
    let mut i: usize = 0;
    proof {
        reveal_strlit("{{");
        reveal_strlit("}}");
    }
    while i < n
        invariant
            n == t.len(),
            i <= n,
            t == text@,
            m == vars@,
            vars.wf(),
            out@ + subst_from(t, m, i as int) == subst_from(t, m, 0),
        decreases n - i,
    {
        proof {
            reveal_strlit("{{");
            reveal_strlit("}}");
        }
        let ghost before = out@;
        let mut next = i + 1;
        let mut done = false;
        if occurs_at_exec(text, "{{", i) {
            match find_from(text, "}}", i + 2) {
                Some(e) => {
                    let name = text.substring_char(i + 2, e);
                    match vars.get(name) {
                        Some(v) => {
                            out.append(v.as_str());
                            next = e + 2;
                            done = true;
                        },
                        None => {},
                    }
                },
                None => {},
            }
        }
        if !done {
            push_char(&mut out, text.get_char(i));
        }
        proof {
            assert(out@ + subst_from(t, m, next as int) =~= before + subst_from(t, m, i as int));
        }
        i = next;
    }
    assert(out@ + subst_from(t, m, i as int) =~= out@);
    out
}

/// The first `{{...}}` token of `text`, if any.
pub fn first_unresolved(text: &str) -> (r: Option<String>)
    ensures
        opt_view(r) == unresolved(text@),
{
    proof {
        reveal_strlit("{{");
        reveal_strlit("}}");
    }
    let n = text.unicode_len();
    match find_from(text, "{{", 0) {
        Some(s) => match find_from(text, "}}", s + 2) {
            Some(e) => Some(owned(text.substring_char(s, e + 2))),
            None => None,
        },
        None => None,
    }
}

/// Substitutes `vars` into `text`; fails with `UnresolvedVariable` on the first
/// `{{...}}` token left.
pub fn replace_variables(text: &str, vars: &Table<String>) -> (r: Result<String, TerziError>)
    requires
        vars.wf(),
    ensures
        match replaced(text@, vars@) {
            Ok(s) => r is Ok && r->Ok_0@ == s,
            Err(tok) => match r {
                Err(TerziError::UnresolvedVariable(m)) => m@ == tok,
                _ => false,
            },
        },
{
    let out = substitute(text, vars);
    match first_unresolved(out.as_str()) {
        Some(tok) => Err(TerziError::UnresolvedVariable(tok)),
        None => Ok(out),
    }
}

/// After `find_spec` finds nothing from `a`, it finds nothing from any later start.
pub proof fn lemma_find_none_after(h: Seq<char>, n: Seq<char>, a: int, b: int)
    requires
        0 <= a <= b,
        find_spec(h, n, a) is None,
    ensures
        find_spec(h, n, b) is None,
    decreases b - a,
{
    if a < b {
        if a <= h.len() {
            lemma_find_none_after(h, n, a + 1, b);
        }
    }
}

/// `find_spec` returns a position at or after its start where the needle occurs.
pub proof fn lemma_find_some(h: Seq<char>, n: Seq<char>, a: int)
    requires
        find_spec(h, n, a) is Some,
    ensures
        a <= find_spec(h, n, a)->Some_0,
        occurs_at(h, n, find_spec(h, n, a)->Some_0),
        forall|q: int| a <= q < find_spec(h, n, a)->Some_0 ==> !occurs_at(h, n, q),
    decreases h.len() + 1 - a,
{
    if !occurs_at(h, n, a) {
        lemma_find_some(h, n, a + 1);
    }
}

/// Text with no `{{...}}` token is left as it is from any position on.
proof fn lemma_subst_fixed(t: Seq<char>, m: Map<Seq<char>, Seq<char>>, i: int)
    requires
        unresolved(t) is None,
        0 <= i <= t.len(),
    ensures
        subst_from(t, m, i) == t.subrange(i, t.len() as int),
    decreases t.len() - i,
{
    reveal_strlit("{{");
    if i < t.len() {
        lemma_subst_fixed(t, m, i + 1);
        if occurs_at(t, "{{"@, i) {
            let f = find_spec(t, "{{"@, 0);
            if f is None {
                lemma_find_none_after(t, "{{"@, 0, i);
                assert(find_spec(t, "{{"@, i) == Some(i));
            } else {
                lemma_find_some(t, "{{"@, 0);
                let s = f->Some_0;
                assert(s <= i);
                lemma_find_none_after(t, "}}"@, s + 2, i + 2);
            }
        }
        assert(subst_from(t, m, i) =~= t.subrange(i, t.len() as int));
    }
}

/// Substituting again into a successfully replaced text, with the same
/// variables, gives the same text: rendering is idempotent.
pub proof fn lemma_replace_idempotent(t: Seq<char>, m: Map<Seq<char>, Seq<char>>)
    requires
        replaced(t, m) is Ok,
    ensures
        replaced(replaced(t, m)->Ok_0, m) == replaced(t, m),
{
    let r = substituted(t, m);
    lemma_subst_fixed(r, m, 0);
    assert(r.subrange(0, r.len() as int) =~= r);
}

/// The declared type of a variable; descriptive only, never enforced.
#[derive(Debug, Clone, Copy, PartialEq, Eq)]
pub enum VariableType {
    String,
    Number,
    Boolean,
    Url,
    Email,
    Json,
}

/// A variable that a template declares.
#[derive(Debug, Clone)]
pub struct TemplateVariable {
    pub name: String,
    pub description: Option<String>,
    pub default_value: Option<String>,
    pub required: bool,
    pub variable_type: VariableType,
}

/// What a template variable declares, as plain values.
pub struct VariableView {
    pub name: Seq<char>,
    pub description: Option<Seq<char>>,
    pub default_value: Option<Seq<char>>,
    pub required: bool,
    pub variable_type: VariableType,
}

impl View for TemplateVariable {
    type V = VariableView;

    open spec fn view(&self) -> VariableView {
        VariableView {
            name: self.name@,
            description: opt_view(self.description),
            default_value: opt_view(self.default_value),
            required: self.required,
            variable_type: self.variable_type,
        }
    }
}

/// A base request plus declared variables and named environment overlays.
#[derive(Debug, Clone)]
pub struct RequestTemplate {
    pub name: String,
    pub description: Option<String>,
    pub base_request: SavedRequest,
    pub variables: Table<TemplateVariable>,
    pub environments: Table<Table<String>>,
}

/// The variables an environment contributes: its overlay, if it exists.
pub open spec fn env_layer(
    envs: Map<Seq<char>, Map<Seq<char>, Seq<char>>>,
    env: Option<Seq<char>>,
) -> Map<Seq<char>, Seq<char>> {
    match env {
        Some(e) => if envs.contains_key(e) {
            envs[e]
        } else {
            Map::empty()
        },
        None => Map::empty(),
    }
}

/// The first declared variable, in declaration order, that is required,
/// absent from `m` and without a default.
pub open spec fn first_missing(es: Seq<(String, TemplateVariable)>, m: Map<Seq<char>, Seq<char>>) -> Option<
    Seq<char>,
>
    decreases es.len(),
{
    if es.len() == 0 {
        None
    } else if es[0].1.required && !m.contains_key(es[0].0@) && es[0].1.default_value is None {
        Some(es[0].0@)
    } else {
        first_missing(es.skip(1), m)
    }
}

/// `m` with the default of each declared variable that `m` lacks.
pub open spec fn fill_defaults(es: Seq<(String, TemplateVariable)>, m: Map<Seq<char>, Seq<char>>) -> Map<
    Seq<char>,
    Seq<char>,
>
    decreases es.len(),
{
    if es.len() == 0 {
        m
    } else {
        let prev = fill_defaults(es.drop_last(), m);
        let k = es.last().0@;
        match es.last().1.default_value {
            Some(d) => if prev.contains_key(k) {
                prev
            } else {
                prev.insert(k, d@)
            },
            None => prev,
        }
    }
}

/// The first header, in order, whose value keeps a token after substitution.
pub open spec fn first_bad_header(es: Seq<(String, String)>, m: Map<Seq<char>, Seq<char>>) -> Option<
    Seq<char>,
>
    decreases es.len(),
{
    if es.len() == 0 {
        None
    } else {
        match replaced(es[0].1@, m) {
            Err(tok) => Some(tok),
            Ok(_) => first_bad_header(es.skip(1), m),
        }
    }
}

/// Why rendering fails.
pub enum RenderFailure {
    Missing(Seq<char>),
    Unresolved(Seq<char>),
}

impl RequestTemplate {
    /// Names in each table are unique, and each environment's are too.
    pub open spec fn wf(&self) -> bool {
        &&& self.base_request.wf()
        &&& self.variables.wf()
        &&& self.environments.wf()
        &&& forall|i: int|
            0 <= i < self.environments.entries@.len() ==> (#[trigger] self.environments.entries@[i]).1.wf()
    }

    /// The variables in force: the environment's overlay, then `vars` over it,
    /// then the defaults of declared variables still absent.
    pub open spec fn resolved(
        &self,
        env: Option<Seq<char>>,
        vars: Map<Seq<char>, Seq<char>>,
    ) -> Map<Seq<char>, Seq<char>> {
        fill_defaults(
            self.variables.entries@,
            env_layer(self.environments@, env).union_prefer_right(vars),
        )
    }

    /// Why rendering fails, if it does: a missing required variable first, then
    /// a token left in the URL, in a header value (in order), or in the body.
    pub open spec fn render_failure(
        &self,
        env: Option<Seq<char>>,
        vars: Map<Seq<char>, Seq<char>>,
    ) -> Option<RenderFailure> {
        let merged = env_layer(self.environments@, env).union_prefer_right(vars);
        let all = self.resolved(env, vars);
        let base = self.base_request;
        if first_missing(self.variables.entries@, merged) is Some {
            Some(RenderFailure::Missing(first_missing(self.variables.entries@, merged)->Some_0))
        } else if replaced(base.url@, all) is Err {
            Some(RenderFailure::Unresolved(replaced(base.url@, all)->Err_0))
        } else if first_bad_header(base.headers.entries@, all) is Some {
            Some(RenderFailure::Unresolved(first_bad_header(base.headers.entries@, all)->Some_0))
        } else if base.body is Some && replaced(base.body->Some_0@, all) is Err {
            Some(RenderFailure::Unresolved(replaced(base.body->Some_0@, all)->Err_0))
        } else {
            None
        }
    }

    /// A template over `base_request` with no variables or environments.
    pub fn new(name: String, base_request: SavedRequest) -> (r: Self)
        requires
            base_request.wf(),
        ensures
            r.wf(),
            r.name@ == name@,
            r.description is None,
            r.base_request@ == base_request@,
            r.variables@ == Map::<Seq<char>, VariableView>::empty(),
            r.environments@ == Map::<Seq<char>, Map<Seq<char>, Seq<char>>>::empty(),
    {
        RequestTemplate {
            name,
            description: None,
            base_request,
            variables: Table::new(),
            environments: Table::new(),
        }
    }

    /// Declares a variable under its own name, replacing an earlier one.
    pub fn add_variable(&mut self, variable: TemplateVariable)
        requires
            old(self).wf(),
        ensures
            final(self).wf(),
            final(self).variables@ == old(self).variables@.insert(variable.name@, variable@),
            final(self).base_request == old(self).base_request,
            final(self).environments == old(self).environments,
    {
        let key = variable.name.clone();
        self.variables.insert(key, variable);
    }

    /// Adds or replaces an environment overlay.
    pub fn add_environment(&mut self, name: String, variables: Table<String>)
        requires
            old(self).wf(),
            variables.wf(),
        ensures
            final(self).wf(),
            final(self).environments@ == old(self).environments@.insert(name@, variables@),
            final(self).base_request == old(self).base_request,
            final(self).variables == old(self).variables,
    {
        let ghost o = self.environments.entries@;
        self.environments.insert(name, variables);
        assert forall|i: int| 0 <= i < self.environments.entries@.len() implies (
        #[trigger] self.environments.entries@[i]).1.wf() by {
            if i < o.len() {
                assert(o[i].1.wf());
            }
        }
    }

    /// The variables in force for `environment` and `variables`.
    fn merged_variables(&self, environment: Option<&str>, variables: Table<String>) -> (r: Table<
        String,
    >)
        requires
            self.wf(),
            variables.wf(),
        ensures
            r.wf(),
            r@ == env_layer(
                self.environments@,
                match environment {
                    Some(e) => Some(e@),
                    None => None,
                },
            ).union_prefer_right(variables@),
    {
        let mut all: Table<String> = Table::new();
        match environment {
            Some(e) => match self.environments.position(e) {
                Some(i) => {
                    proof {
                        lemma_index_of(self.environments.entries@, i as int);
                        assert(self.environments.entries@[i as int].1.wf());
                    }
                    all = self.environments.entries[i].1.copy();
                },
                None => {},
            },
            None => {},
        }
        all.absorb(variables);
        all
    }

    /// The first declared variable that is required, absent and without default.
    #[verifier::loop_isolation(false)]
    fn find_missing(&self, merged: &Table<String>) -> (r: Option<String>)
        requires
            merged.wf(),
        ensures
            opt_view(r) == first_missing(self.variables.entries@, merged@),
    {
        let es = &self.variables.entries;
        let mut i: usize = 0;
        assert(es@.skip(0) =~= es@);
        while i < es.len()
            invariant
                merged.wf(),
                i <= es@.len(),
                first_missing(es@, merged@) == first_missing(es@.skip(i as int), merged@),
            decreases es@.len() - i,
        {
            assert(es@.skip(i as int).skip(1) =~= es@.skip(i + 1));
            assert(es@.skip(i as int)[0] == es@[i as int]);
            let v = &es[i].1;
            if v.required && !merged.contains_key(es[i].0.as_str()) && v.default_value.is_none() {
                let ghost sk = es@.skip(i as int);
                assert(sk[0].1.required && !merged@.contains_key(sk[0].0@) && sk[0].1.default_value is None);
                assert(first_missing(sk, merged@) == Some(sk[0].0@));
                let c = es[i].0.clone();
                assert(c@ == sk[0].0@);
                assert(first_missing(es@, merged@) == Some(c@));
                return Some(c);
            }
            i = i + 1;
        }
        None
    }

    /// Adds the defaults of declared variables that `all` lacks.
    fn add_defaults(&self, all: &mut Table<String>)
        requires
            old(all).wf(),
        ensures
            final(all).wf(),
            final(all)@ == fill_defaults(self.variables.entries@, old(all)@),
    {
        let es = &self.variables.entries;
        let ghost m0 = all@;
        let mut i: usize = 0;
        while i < es.len()
            invariant
                all.wf(),
                i <= es@.len(),
                all@ == fill_defaults(es@.subrange(0, i as int), m0),
            decreases es@.len() - i,
        {
            assert(es@.subrange(0, i + 1).drop_last() =~= es@.subrange(0, i as int));
            match &es[i].1.default_value {
                Some(d) => {
                    if !all.contains_key(es[i].0.as_str()) {
                        all.insert(es[i].0.clone(), d.clone());
                    }
                },
                None => {},
            }
            i = i + 1;
        }
        assert(es@.subrange(0, i as int) =~= es@);
    }

    /// Renders the template: see `render_failure` for when and how it fails;
    /// otherwise the base request with the URL, each header value and the body
    /// substituted with `resolved`. The template is left unchanged.
    #[verifier::loop_isolation(false)]
    pub fn render(&self, environment: Option<&str>, variables: Table<String>) -> (r: Result<
        SavedRequest,
        TerziError,
    >)
        requires
            self.wf(),
            variables.wf(),
        ensures
            ({
                let env = match environment {
                    Some(e) => Some(e@),
                    None => None,
                };
                let all = self.resolved(env, variables@);
                match self.render_failure(env, variables@) {
                    Some(RenderFailure::Missing(n)) => match r {
                        Err(TerziError::MissingRequiredVariable(m)) => m@ == n,
                        _ => false,
                    },
                    Some(RenderFailure::Unresolved(tok)) => match r {
                        Err(TerziError::UnresolvedVariable(m)) => m@ == tok,
                        _ => false,
                    },
                    None => r is Ok && r->Ok_0.wf() && r->Ok_0@ == (RequestView {
                        url: substituted(self.base_request.url@, all),
                        headers: Map::new(
                            |k: Seq<char>| self.base_request@.headers.contains_key(k),
                            |k: Seq<char>| substituted(self.base_request@.headers[k], all),
                        ),
                        body: match self.base_request.body {
                            Some(b) => Some(substituted(b@, all)),
                            None => None,
                        },
                        ..self.base_request@
                    }),
                }
            }),
    {
        let ghost env = match environment {
            Some(e) => Some(e@),
            None => None::<Seq<char>>,
        };
        let mut all = self.merged_variables(environment, variables);
        match self.find_missing(&all) {
            Some(name) => {
                return Err(TerziError::MissingRequiredVariable(name));
            },
            None => {},
        }
        self.add_defaults(&mut all);
        let base = &self.base_request;
        let url = match replace_variables(base.url.as_str(), &all) {
            Ok(u) => u,
            Err(e) => {
                return Err(e);
            },
        };
        let hs = &base.headers.entries;
        let mut out: Vec<(String, String)> = Vec::new();
        let mut i: usize = 0;
        assert(hs@.skip(0) =~= hs@);
        while i < hs.len()
            invariant
                all.wf(),
                base.headers.wf(),
                hs == &base.headers.entries,
                i <= hs@.len(),
                out@.len() == i,
                first_bad_header(hs@, all@) == first_bad_header(hs@.skip(i as int), all@),
                forall|j: int|
                    0 <= j < i ==> (#[trigger] out@[j]).0 == hs@[j].0 && out@[j].1@ == substituted(
                        hs@[j].1@,
                        all@,
                    ),
            decreases hs@.len() - i,
        {
            assert(hs@.skip(i as int).skip(1) =~= hs@.skip(i + 1));
            assert(hs@.skip(i as int)[0] == hs@[i as int]);
            match replace_variables(hs[i].1.as_str(), &all) {
                Ok(v) => {
                    out.push((hs[i].0.clone(), v));
                },
                Err(e) => {
                    assert(first_bad_header(hs@.skip(i as int), all@) is Some);
                    assert(first_bad_header(hs@, all@) == Some(replaced(hs@[i as int].1@, all@)->Err_0));
                    return Err(e);
                },
            }
            i = i + 1;
        }
        let body = match &base.body {
            Some(b) => match replace_variables(b.as_str(), &all) {
                Ok(v) => Some(v),
                Err(e) => {
                    return Err(e);
                },
            },
            None => None,
        };
        let headers = Table { entries: out };
        proof {
            let o = hs@;
            let n = headers.entries@;
            assert(keys_unique(n)) by {
                assert forall|a: int, b: int| 0 <= a < b < n.len() implies n[a].0@ != n[b].0@ by {
                    assert(o[a].0@ != o[b].0@);
                }
            }
            assert forall|k: Seq<char>| has_key(n, k) == has_key(o, k) by {
                if has_key(n, k) {
                    let j = choose|j: int| 0 <= j < n.len() && n[j].0@ == k;
                    assert(o[j].0@ == k);
                }
                if has_key(o, k) {
                    let j = choose|j: int| 0 <= j < o.len() && o[j].0@ == k;
                    assert(n[j].0@ == k);
                }
            }
            assert forall|k: Seq<char>| has_key(n, k) implies n[index_of(n, k)].1@ == substituted(
                o[index_of(o, k)].1@,
                all@,
            ) by {
                let j = choose|j: int| 0 <= j < n.len() && n[j].0@ == k;
                lemma_index_of(n, j);
                lemma_index_of(o, j);
            }
            assert(headers@ =~= Map::new(
                |k: Seq<char>| base@.headers.contains_key(k),
                |k: Seq<char>| substituted(base@.headers[k], all@),
            ));
        }
        let mut rendered = base.copy();
        rendered.url = url;
        rendered.headers = headers;
        rendered.body = body;
        Ok(rendered)
    }
}

/// `find_spec` gives the same answer on two texts that agree up to `p`, when
/// the answer on the first ends by `p`.
proof fn lemma_find_agree(h1: Seq<char>, h2: Seq<char>, n: Seq<char>, from: int, p: int)
    requires
        0 <= from,
        p <= h1.len(),
        p <= h2.len(),
        h1.subrange(0, p) == h2.subrange(0, p),
        find_spec(h1, n, from) is Some,
        find_spec(h1, n, from)->Some_0 + n.len() <= p,
    ensures
        find_spec(h2, n, from) == find_spec(h1, n, from),
    decreases h1.len() + 1 - from,
{
    lemma_find_some(h1, n, from);
    let x = find_spec(h1, n, from)->Some_0;
    assert(occurs_at(h1, n, from) == occurs_at(h2, n, from)) by {
        if from + n.len() <= p {
            assert forall|k: int| 0 <= k < n.len() implies #[trigger] h1.subrange(from, from + n.len())[k]
                == h2.subrange(from, from + n.len())[k] by {
                assert(h1[from + k] == h1.subrange(0, p)[from + k]);
                assert(h2[from + k] == h2.subrange(0, p)[from + k]);
            }
            assert(h1.subrange(from, from + n.len()) =~= h2.subrange(from, from + n.len()));
        }
    }
    if !occurs_at(h1, n, from) {
        lemma_find_agree(h1, h2, n, from + 1, p);
    }
}

/// Up to the end of an unknown token that opens the text's first `{{`,
/// substitution copies the text.
proof fn lemma_subst_copies_token(t: Seq<char>, m: Map<Seq<char>, Seq<char>>, i: int, e: int, k: int)
    requires
        find_spec(t, "{{"@, 0) == Some(i),
        find_spec(t, "}}"@, i + 2) == Some(e),
        forall|q: int| i < q <= e + 1 ==> !occurs_at(t, "{{"@, q),
        !m.contains_key(t.subrange(i + 2, e)),
        0 <= k <= e + 2,
        e + 2 <= t.len(),
    ensures
        subst_from(t, m, k) == t.subrange(k, e + 2) + subst_from(t, m, e + 2),
    decreases e + 2 - k,
{
    if k < e + 2 {
        lemma_subst_copies_token(t, m, i, e, k + 1);
        lemma_find_some(t, "{{"@, 0);
        if k < i {
            assert(!occurs_at(t, "{{"@, k));
        }
        assert(subst_from(t, m, k) == seq![t[k]] + subst_from(t, m, k + 1));
        assert(subst_from(t, m, k) =~= t.subrange(k, e + 2) + subst_from(t, m, e + 2));
    } else {
        assert(t.subrange(k, e + 2) =~= Seq::<char>::empty());
        assert(subst_from(t, m, k) =~= t.subrange(k, e + 2) + subst_from(t, m, e + 2));
    }
}

/// A token without a value is reported: when a text's first `{{` opens a
/// token closed by the first `}}` after it, no other `{{` starts inside the
/// token, and its name is not a variable, replacement fails with that token.
pub proof fn lemma_missing_token_reported(t: Seq<char>, m: Map<Seq<char>, Seq<char>>, i: int, e: int)
    requires
        find_spec(t, "{{"@, 0) == Some(i),
        find_spec(t, "}}"@, i + 2) == Some(e),
        forall|q: int| i < q <= e + 1 ==> !occurs_at(t, "{{"@, q),
        !m.contains_key(t.subrange(i + 2, e)),
    ensures
        replaced(t, m) == Err::<Seq<char>, Seq<char>>(t.subrange(i, e + 2)),
{
    reveal_strlit("{{");
    reveal_strlit("}}");
    lemma_find_some(t, "{{"@, 0);
    lemma_find_some(t, "}}"@, i + 2);
    lemma_subst_copies_token(t, m, i, e, 0);
    let r = substituted(t, m);
    assert(r.subrange(0, e + 2) =~= t.subrange(0, e + 2));
    lemma_find_agree(t, r, "{{"@, 0, e + 2);
    lemma_find_agree(t, r, "}}"@, i + 2, e + 2);
    assert(r.subrange(i, e + 2) =~= t.subrange(i, e + 2));
}

/// Rendering reports an unknown token in the URL: when no required variable is
/// missing and the URL's first token (as in `lemma_missing_token_reported`)
/// names no variable in force, rendering fails with `UnresolvedVariable` of
/// that token.
pub proof fn lemma_render_reports_url_token(
    t: RequestTemplate,
    env: Option<Seq<char>>,
    vars: Map<Seq<char>, Seq<char>>,
    i: int,
    e: int,
)
    requires
        first_missing(
            t.variables.entries@,
            env_layer(t.environments@, env).union_prefer_right(vars),
        ) is None,
        find_spec(t.base_request.url@, "{{"@, 0) == Some(i),
        find_spec(t.base_request.url@, "}}"@, i + 2) == Some(e),
        forall|q: int| i < q <= e + 1 ==> !occurs_at(t.base_request.url@, "{{"@, q),
        !t.resolved(env, vars).contains_key(t.base_request.url@.subrange(i + 2, e)),
    ensures
        t.render_failure(env, vars) == Some(
            RenderFailure::Unresolved(t.base_request.url@.subrange(i, e + 2)),
        ),
{
    lemma_missing_token_reported(t.base_request.url@, t.resolved(env, vars), i, e);
}

} // verus!
