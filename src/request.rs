//! Saved requests, the builder that produces them, and request collections.

use vstd::prelude::*;
use vstd::string::*;
use base64::Engine;
use crate::clock::{new_id, now_millis};
use crate::error::TerziError;
use crate::table::{Duplicate, Table};
use crate::text::{
    find_from, find_spec, lower_keeps, lower_of, owned, str_eq, to_lower, to_upper, upper_keeps,
    upper_of,
};
use crate::validate::{
    is_method_name, is_method_name_exec, is_valid_json, is_valid_url, json_parses, url_parses,
};

verus! {

/// The characters of an optional string.
pub open spec fn opt_view(o: Option<String>) -> Option<Seq<char>> {
    match o {
        Some(s) => Some(s@),
        None => None,
    }
}

/// The characters of each string, in order.
pub open spec fn strings_view(v: Seq<String>) -> Seq<Seq<char>> {
    v.map_values(|s: String| s@)
}

/// A copy of an optional string.
pub fn copy_opt(o: &Option<String>) -> (r: Option<String>)
    ensures
        r == *o,
{
    match o {
        Some(s) => Some(s.clone()),
        None => None,
    }
}

/// A copy of a list of strings.
pub fn copy_strings(v: &Vec<String>) -> (r: Vec<String>)
    ensures
        r@ == v@,
{
    let mut out: Vec<String> = Vec::new();
    let mut i: usize = 0;
    while i < v.len()
        invariant
            i <= v@.len(),
            out@ == v@.subrange(0, i as int),
        decreases v@.len() - i,
    {
        out.push(v[i].clone());
        i = i + 1;
        assert(out@ =~= v@.subrange(0, i as int));
    }
    assert(out@ =~= v@);
    out
}

/// Whether some element of `v` holds the characters of `s`.
pub fn contains_string(v: &Vec<String>, s: &str) -> (r: bool)
    ensures
        r == strings_view(v@).contains(s@),
{
    let mut i: usize = 0;
    while i < v.len()
        invariant
            i <= v@.len(),
            forall|j: int| 0 <= j < i ==> v@[j]@ != s@,
        decreases v@.len() - i,
    {
        if str_eq(v[i].as_str(), s) {
            assert(strings_view(v@)[i as int] == s@);
            return true;
        }
        i = i + 1;
    }
    assert(!strings_view(v@).contains(s@)) by {
        if strings_view(v@).contains(s@) {
            let j = choose|j: int| 0 <= j < strings_view(v@).len() && strings_view(v@)[j] == s@;
            assert(v@[j]@ == s@);
        }
    }
    false
}

/// What a saved request holds, as plain values.
pub struct RequestView {
    pub id: Seq<char>,
    pub name: Seq<char>,
    pub url: Seq<char>,
    pub method: Seq<char>,
    pub headers: Map<Seq<char>, Seq<char>>,
    pub body: Option<Seq<char>>,
    pub timeout: Option<u64>,
    pub follow_redirects: Option<bool>,
    pub created_at: i64,
    pub updated_at: i64,
    pub tags: Seq<Seq<char>>,
    pub description: Option<Seq<char>>,
}

/// A named, persisted description of an HTTP call.
#[derive(Debug, Clone)]
pub struct SavedRequest {
    pub id: String,
    pub name: String,
    pub url: String,
    pub method: String,
    pub headers: Table<String>,
    pub body: Option<String>,
    pub timeout: Option<u64>,
    pub follow_redirects: Option<bool>,
    /// Milliseconds since the Unix epoch.
    pub created_at: i64,
    /// Milliseconds since the Unix epoch; never below `created_at`.
    pub updated_at: i64,
    pub tags: Vec<String>,
    pub description: Option<String>,
}

impl View for SavedRequest {
    type V = RequestView;

    open spec fn view(&self) -> RequestView {
        RequestView {
            id: self.id@,
            name: self.name@,
            url: self.url@,
            method: self.method@,
            headers: self.headers@,
            body: opt_view(self.body),
            timeout: self.timeout,
            follow_redirects: self.follow_redirects,
            created_at: self.created_at,
            updated_at: self.updated_at,
            tags: strings_view(self.tags@),
            description: opt_view(self.description),
        }
    }
}

/// The later of two instants.
pub open spec fn later(a: i64, b: i64) -> i64 {
    if a < b {
        b
    } else {
        a
    }
}

impl SavedRequest {
    /// Header names are unique.
    pub open spec fn wf(&self) -> bool {
        self.headers.wf()
    }

    /// A request with the given identity and creation time and nothing else set.
    pub fn with_identity(id: String, created_at: i64, name: String, url: String, method: String) -> (r:
        Self)
        ensures
            r.wf(),
            r@ == (RequestView {
                id: id@,
                name: name@,
                url: url@,
                method: method@,
                headers: Map::empty(),
                body: None,
                timeout: None,
                follow_redirects: None,
                created_at,
                updated_at: created_at,
                tags: Seq::empty(),
                description: None,
            }),
    {
        let r = SavedRequest {
            id,
            name,
            url,
            method,
            headers: Table::new(),
            body: None,
            timeout: None,
            follow_redirects: None,
            created_at,
            updated_at: created_at,
            tags: Vec::new(),
            description: None,
        };
        assert(strings_view(r.tags@) =~= Seq::<Seq<char>>::empty());
        r
    }

    /// A request with a fresh identifier, created now.
    pub fn new(name: String, url: String, method: String) -> (r: Self)
        ensures
            r.wf(),
            r@.name == name@,
            r@.url == url@,
            r@.method == method@,
            r@.headers == Map::<Seq<char>, Seq<char>>::empty(),
            r@.body is None,
            r@.timeout is None,
            r@.follow_redirects is None,
            r@.updated_at == r@.created_at,
            r@.tags.len() == 0,
            r@.description is None,
    {
        let id = new_id();
        let now = now_millis();
        Self::with_identity(id, now, name, url, method)
    }

    /// A copy with the same contents.
    pub fn copy(&self) -> (r: Self)
        requires
            self.wf(),
        ensures
            r.wf(),
            r@ == self@,
    {
        let tags = copy_strings(&self.tags);
        SavedRequest {
            id: self.id.clone(),
            name: self.name.clone(),
            url: self.url.clone(),
            method: self.method.clone(),
            headers: self.headers.copy(),
            body: copy_opt(&self.body),
            timeout: self.timeout,
            follow_redirects: self.follow_redirects,
            created_at: self.created_at,
            updated_at: self.updated_at,
            tags,
            description: copy_opt(&self.description),
        }
    }

    /// Moves `updated_at` to now, never backwards.
    pub fn touch(&mut self)
        ensures
            final(self)@ == (RequestView { updated_at: final(self)@.updated_at, ..old(self)@ }),
            final(self).headers == old(self).headers,
            final(self).updated_at >= old(self).updated_at,
    {
        let now = now_millis();
        if now > self.updated_at {
            self.updated_at = now;
        }
    }

    /// Sets header `key` to `value`, replacing an earlier value.
    pub fn add_header(&mut self, key: String, value: String)
        requires
            old(self).wf(),
        ensures
            final(self).wf(),
            final(self)@ == (RequestView {
                headers: old(self)@.headers.insert(key@, value@),
                updated_at: final(self)@.updated_at,
                ..old(self)@
            }),
            final(self).updated_at >= old(self).updated_at,
    {
        self.headers.insert(key, value);
        self.touch();
    }

    /// Replaces the body.
    pub fn set_body(&mut self, body: Option<String>)
        ensures
            final(self).headers == old(self).headers,
            final(self)@ == (RequestView {
                body: opt_view(body),
                updated_at: final(self)@.updated_at,
                ..old(self)@
            }),
            final(self).updated_at >= old(self).updated_at,
    {
        self.body = body;
        self.touch();
    }

    /// Appends `tag` unless it is already present.
    pub fn add_tag(&mut self, tag: String)
        ensures
            final(self).headers == old(self).headers,
            old(self)@.tags.contains(tag@) ==> final(self)@ == old(self)@,
            !old(self)@.tags.contains(tag@) ==> final(self)@ == (RequestView {
                tags: old(self)@.tags.push(tag@),
                updated_at: final(self)@.updated_at,
                ..old(self)@
            }),
            final(self).updated_at >= old(self).updated_at,
    {
        if !contains_string(&self.tags, tag.as_str()) {
            let ghost t = tag@;
            self.tags.push(tag);
            assert(strings_view(self.tags@) =~= old(self)@.tags.push(t));
            self.touch();
        }
    }

    /// Removes every occurrence of `tag`.
    pub fn remove_tag(&mut self, tag: &str)
        ensures
            final(self).headers == old(self).headers,
            final(self)@ == (RequestView {
                tags: old(self)@.tags.filter(|t: Seq<char>| t != tag@),
                updated_at: final(self)@.updated_at,
                ..old(self)@
            }),
            final(self).updated_at >= old(self).updated_at,
    {
        let ghost ov = strings_view(old(self).tags@);
        let mut kept: Vec<String> = Vec::new();
        let mut i: usize = 0;
        while i < self.tags.len()
            invariant
                i <= self.tags@.len(),
                self.tags@ == old(self).tags@,
                ov == strings_view(self.tags@),
                strings_view(kept@) == ov.subrange(0, i as int).filter(|t: Seq<char>| t != tag@),
            decreases self.tags@.len() - i,
        {
            assert(ov.subrange(0, i + 1).drop_last() =~= ov.subrange(0, i as int));
            proof {
                reveal(Seq::filter);
            }
            if !str_eq(self.tags[i].as_str(), tag) {
                kept.push(self.tags[i].clone());
            }
            i = i + 1;
            assert(strings_view(kept@) =~= ov.subrange(0, i as int).filter(|t: Seq<char>| t != tag@));
        }
        assert(ov.subrange(0, i as int) =~= ov);
        self.tags = kept;
        self.touch();
    }
}

/// What base64's standard engine encodes for the UTF-8 bytes of a text.
pub uninterp spec fn base64_of(s: Seq<char>) -> Seq<char>;

/// What `urlencoding::encode` returns for a text.
pub uninterp spec fn percent_of(s: Seq<char>) -> Seq<char>;

/// Relies on `base64::prelude::BASE64_STANDARD.encode`: the padded
/// standard-alphabet encoding, a function of the bytes alone.
#[verifier::external_body]
fn base64_encode(s: &str) -> (r: String)
    ensures
        r@ == base64_of(s@),
{
    base64::prelude::BASE64_STANDARD.encode(s)
}

/// Relies on `urlencoding::encode`: percent-encoding, a function of the text alone.
#[verifier::external_body]
fn percent_encode(s: &str) -> (r: String)
    ensures
        r@ == percent_of(s@),
{
    urlencoding::encode(s).into_owned()
}

/// What an authorization string asks for.
pub enum AuthOutcome {
    /// Set this header to this value.
    Header(Seq<char>, Seq<char>),
    /// A `basic:` credential without a `user:pass` split.
    MalformedBasic,
    /// An unknown scheme, as written.
    Unsupported(Seq<char>),
}

/// The meaning of an authorization string `<scheme>:<rest>`, or of a bare token.
pub open spec fn auth_outcome(a: Seq<char>) -> AuthOutcome {
    match find_spec(a, ":"@, 0) {
        None => AuthOutcome::Header("Authorization"@, "Bearer "@ + a),
        Some(i) => {
            let scheme = lower_of(a.subrange(0, i));
            let cred = a.subrange(i + 1, a.len() as int);
            if scheme == "bearer"@ {
                AuthOutcome::Header("Authorization"@, "Bearer "@ + cred)
            } else if scheme == "basic"@ {
                if find_spec(cred, ":"@, 0) is Some {
                    AuthOutcome::Header("Authorization"@, "Basic "@ + base64_of(cred))
                } else {
                    AuthOutcome::MalformedBasic
                }
            } else if scheme == "api-key"@ || scheme == "apikey"@ {
                match find_spec(cred, ":"@, 0) {
                    Some(j) => AuthOutcome::Header(
                        cred.subrange(0, j),
                        cred.subrange(j + 1, cred.len() as int),
                    ),
                    None => AuthOutcome::Header("X-API-Key"@, cred),
                }
            } else {
                AuthOutcome::Unsupported(a.subrange(0, i))
            }
        },
    }
}

/// `k=v` pairs, percent-encoded and joined by `&`, in the order given.
pub open spec fn form_encoded(es: Seq<(String, String)>) -> Seq<char>
    decreases es.len(),
{
    if es.len() == 0 {
        Seq::empty()
    } else {
        let pair = percent_of(es.last().0@) + "="@ + percent_of(es.last().1@);
        if es.len() == 1 {
            pair
        } else {
            form_encoded(es.drop_last()) + "&"@ + pair
        }
    }
}

/// Builds a `SavedRequest` step by step, rejecting malformed input early.
#[derive(Debug, Clone)]
pub struct RequestBuilder {
    pub request: SavedRequest,
}

impl View for RequestBuilder {
    type V = RequestView;

    open spec fn view(&self) -> RequestView {
        self.request@
    }
}

impl RequestBuilder {
    /// Header names are unique.
    pub open spec fn wf(&self) -> bool {
        self.request.wf()
    }

    /// Starts a request; the URL must parse and the method must be a supported
    /// verb in any case, which is stored in upper case.
    pub fn new(url: &str, method: &str) -> (r: Result<Self, TerziError>)
        ensures
            r is Ok <==> url_parses(url@) && is_method_name(upper_of(method@)),
            r is Err ==> r matches Err(TerziError::InvalidInput(_)),
            r is Ok ==> {
                let b = r->Ok_0;
                &&& b.wf()
                &&& b@.url == url@
                &&& b@.method == upper_of(method@)
                &&& b@.name.len() == 0
                &&& b@.headers == Map::<Seq<char>, Seq<char>>::empty()
                &&& b@.body is None
                &&& b@.timeout is None
                &&& b@.follow_redirects is None
                &&& b@.updated_at == b@.created_at
                &&& b@.tags.len() == 0
                &&& b@.description is None
            },
    {
        if !is_valid_url(url) {
            let mut msg = owned("Invalid URL: ");
            msg.append(url);
            return Err(TerziError::InvalidInput(msg));
        }
        let up = to_upper(method);
        if !is_method_name_exec(up.as_str()) {
            let mut msg = owned("Invalid HTTP method: ");
            msg.append(method);
            return Err(TerziError::InvalidInput(msg));
        }
        Ok(RequestBuilder { request: SavedRequest::new(String::new(), owned(url), up) })
    }

    /// Sets the name.
    pub fn name(self, name: &str) -> (r: Self)
        requires
            self.wf(),
        ensures
            r.wf(),
            r@ == (RequestView { name: name@, ..self@ }),
    {
        let mut b = self;
        b.request.name = owned(name);
        b
    }

    /// Sets one header, replacing an earlier value.
    pub fn header(self, key: &str, value: &str) -> (r: Self)
        requires
            self.wf(),
        ensures
            r.wf(),
            r@ == (RequestView { headers: self@.headers.insert(key@, value@), ..self@ }),
    {
        let mut b = self;
        b.request.headers.insert(owned(key), owned(value));
        b
    }

    /// Sets every header of `headers`; they win over earlier values.
    pub fn headers(self, headers: Table<String>) -> (r: Self)
        requires
            self.wf(),
            headers.wf(),
        ensures
            r.wf(),
            r@ == (RequestView { headers: self@.headers.union_prefer_right(headers@), ..self@ }),
    {
        let mut b = self;
        b.request.headers.absorb(headers);
        b
    }

    /// Applies an authorization string; see `auth_outcome`.
    pub fn auth(self, auth: &str) -> (r: Result<Self, TerziError>)
        requires
            self.wf(),
        ensures
            match auth_outcome(auth@) {
                AuthOutcome::Header(n, v) => r is Ok && r->Ok_0.wf() && r->Ok_0@ == (RequestView {
                    headers: self@.headers.insert(n, v),
                    ..self@
                }),
                AuthOutcome::MalformedBasic => r matches Err(TerziError::InvalidInput(_)),
                AuthOutcome::Unsupported(s) => match r {
                    Err(TerziError::UnsupportedAuthType(m)) => m@ == s,
                    _ => false,
                },
            },
    {
        let n = auth.unicode_len();
        match find_from(auth, ":", 0) {
            None => {
                let mut v = owned("Bearer ");
                v.append(auth);
                Ok(self.header("Authorization", v.as_str()))
            },
            Some(i) => {
                proof {
                    reveal_strlit(":");
                }
                let scheme_text = auth.substring_char(0, i);
                let cred = auth.substring_char(i + 1, n);
                let scheme = to_lower(scheme_text);
                if str_eq(scheme.as_str(), "bearer") {
                    let mut v = owned("Bearer ");
                    v.append(cred);
                    Ok(self.header("Authorization", v.as_str()))
                } else if str_eq(scheme.as_str(), "basic") {
                    match find_from(cred, ":", 0) {
                        Some(_) => {
                            let mut v = owned("Basic ");
                            let enc = base64_encode(cred);
                            v.append(enc.as_str());
                            Ok(self.header("Authorization", v.as_str()))
                        },
                        None => Err(
                            TerziError::InvalidInput(
                                owned("Basic auth requires username:password format"),
                            ),
                        ),
                    }
                } else if str_eq(scheme.as_str(), "api-key") || str_eq(scheme.as_str(), "apikey") {
                    let cn = cred.unicode_len();
                    match find_from(cred, ":", 0) {
                        Some(j) => {
                            proof {
                                reveal_strlit(":");
                            }
                            let hn = cred.substring_char(0, j);
                            let hv = cred.substring_char(j + 1, cn);
                            Ok(self.header(hn, hv))
                        },
                        None => Ok(self.header("X-API-Key", cred)),
                    }
                } else {
                    Err(TerziError::UnsupportedAuthType(owned(scheme_text)))
                }
            },
        }
    }

    /// Sets a JSON body, verbatim, with `Content-Type: application/json`;
    /// fails when the text is not one complete JSON document.
    pub fn json_body(self, json: &str) -> (r: Result<Self, TerziError>)
        requires
            self.wf(),
        ensures
            r is Ok <==> json_parses(json@),
            r is Err ==> r matches Err(TerziError::InvalidInput(_)),
            r is Ok ==> r->Ok_0.wf() && r->Ok_0@ == (RequestView {
                headers: self@.headers.insert("Content-Type"@, "application/json"@),
                body: Some(json@),
                ..self@
            }),
    {
        if !is_valid_json(json) {
            let mut msg = owned("Invalid JSON: ");
            msg.append(json);
            return Err(TerziError::InvalidInput(msg));
        }
        let mut b = self.header("Content-Type", "application/json");
        b.request.body = Some(owned(json));
        Ok(b)
    }

    /// Sets a form body: each pair percent-encoded, joined by `&` in the
    /// table's order, with `Content-Type: application/x-www-form-urlencoded`.
    pub fn form_body(self, form_data: Table<String>) -> (r: Result<Self, TerziError>)
        requires
            self.wf(),
        ensures
            r is Ok,
            r->Ok_0.wf(),
            r->Ok_0@ == (RequestView {
                headers: self@.headers.insert(
                    "Content-Type"@,
                    "application/x-www-form-urlencoded"@,
                ),
                body: Some(form_encoded(form_data.entries@)),
                ..self@
            }),
    {
        let es = &form_data.entries;
        let mut out = String::new();
        let mut i: usize = 0;
        while i < es.len()
            invariant
                i <= es@.len(),
                out@ == form_encoded(es@.subrange(0, i as int)),
            decreases es@.len() - i,
        {
            assert(es@.subrange(0, i + 1).drop_last() =~= es@.subrange(0, i as int));
            assert(es@.subrange(0, i + 1).last() == es@[i as int]);
            if i > 0 {
                out.append("&");
            }
            let k = percent_encode(es[i].0.as_str());
            let v = percent_encode(es[i].1.as_str());
            out.append(k.as_str());
            out.append("=");
            out.append(v.as_str());
            i = i + 1;
        }
        assert(es@.subrange(0, i as int) =~= es@);
        let mut b = self.header("Content-Type", "application/x-www-form-urlencoded");
        b.request.body = Some(out);
        Ok(b)
    }

    /// Sets the body verbatim, with no content type.
    pub fn raw_body(self, body: &str) -> (r: Self)
        requires
            self.wf(),
        ensures
            r.wf(),
            r@ == (RequestView { body: Some(body@), ..self@ }),
    {
        let mut b = self;
        b.request.body = Some(owned(body));
        b
    }

    /// Sets the timeout in seconds.
    pub fn timeout(self, seconds: u64) -> (r: Self)
        requires
            self.wf(),
        ensures
            r.wf(),
            r@ == (RequestView { timeout: Some(seconds), ..self@ }),
    {
        let mut b = self;
        b.request.timeout = Some(seconds);
        b
    }

    /// Sets whether redirects are followed.
    pub fn follow_redirects(self, follow: bool) -> (r: Self)
        requires
            self.wf(),
        ensures
            r.wf(),
            r@ == (RequestView { follow_redirects: Some(follow), ..self@ }),
    {
        let mut b = self;
        b.request.follow_redirects = Some(follow);
        b
    }

    /// Sets the description.
    pub fn description(self, description: &str) -> (r: Self)
        requires
            self.wf(),
        ensures
            r.wf(),
            r@ == (RequestView { description: Some(description@), ..self@ }),
    {
        let mut b = self;
        b.request.description = Some(owned(description));
        b
    }

    /// Adds a tag unless it is already present.
    pub fn tag(self, tag: &str) -> (r: Self)
        requires
            self.wf(),
        ensures
            r.wf(),
            self@.tags.contains(tag@) ==> r@ == self@,
            !self@.tags.contains(tag@) ==> r@ == (RequestView {
                tags: self@.tags.push(tag@),
                ..self@
            }),
    {
        let mut b = self;
        if !contains_string(&b.request.tags, tag) {
            let t = owned(tag);
            b.request.tags.push(t);
            assert(strings_view(b.request.tags@) =~= self@.tags.push(tag@));
        }
        b
    }

    /// Adds each tag of `tags` in order, skipping those already present.
    pub fn tags(self, tags: Vec<String>) -> (r: Self)
        requires
            self.wf(),
        ensures
            r.wf(),
            r@ == (RequestView { tags: r@.tags, ..self@ }),
            r@.tags.len() <= self@.tags.len() + tags@.len(),
            forall|t: Seq<char>|
                r@.tags.contains(t) <==> self@.tags.contains(t) || strings_view(tags@).contains(t),
    {
        let mut b = self;
        let mut i: usize = 0;
        while i < tags.len()
            invariant
                b.wf(),
                i <= tags@.len(),
                b@ == (RequestView { tags: b@.tags, ..self@ }),
                b@.tags.len() <= self@.tags.len() + i,
                forall|t: Seq<char>|
                    b@.tags.contains(t) <==> self@.tags.contains(t) || strings_view(
                        tags@.subrange(0, i as int),
                    ).contains(t),
            decreases tags@.len() - i,
        {
            let ghost before = b@.tags;
            assert(forall|t: Seq<char>|
                before.contains(t) <==> self@.tags.contains(t) || strings_view(
                    tags@.subrange(0, i as int),
                ).contains(t));
            b = b.tag(tags[i].as_str());
            proof {
                let s0 = strings_view(tags@.subrange(0, i as int));
                let s1 = strings_view(tags@.subrange(0, i + 1));
                assert(s1 =~= s0.push(tags@[i as int]@));
                assert forall|t: Seq<char>| s1.contains(t) <==> s0.contains(t) || t == tags@[i as int]@ by {
                    if s1.contains(t) {
                        let j = choose|j: int| 0 <= j < s1.len() && s1[j] == t;
                        if j < s0.len() {
                            assert(s0[j] == t);
                        }
                    }
                    if s0.contains(t) {
                        let j = choose|j: int| 0 <= j < s0.len() && s0[j] == t;
                        assert(s1[j] == t);
                    }
                    if t == tags@[i as int]@ {
                        assert(s1[i as int] == t);
                    }
                }
                assert forall|t: Seq<char>| b@.tags.contains(t) <==> before.contains(t) || t
                    == tags@[i as int]@ by {
                    if !before.contains(tags@[i as int]@) {
                        let pb = before.push(tags@[i as int]@);
                        if pb.contains(t) {
                            let j = choose|j: int| 0 <= j < pb.len() && pb[j] == t;
                            if j < before.len() {
                                assert(before[j] == t);
                            }
                        }
                        if before.contains(t) {
                            let j = choose|j: int| 0 <= j < before.len() && before[j] == t;
                            assert(pb[j] == t);
                        }
                        assert(pb[before.len() as int] == tags@[i as int]@);
                    }
                }
                assert forall|t: Seq<char>|
                    b@.tags.contains(t) <==> self@.tags.contains(t) || s1.contains(t) by {
                    assert(before.contains(t) <==> self@.tags.contains(t) || s0.contains(t));
                }
            }
            i = i + 1;
        }
        assert(tags@.subrange(0, i as int) =~= tags@);
        b
    }

    /// The finished request.
    pub fn build(self) -> (r: SavedRequest)
        requires
            self.wf(),
        ensures
            r.wf(),
            r@ == self@,
    {
        self.request
    }
}

/// The views of a list of requests, in order.
pub open spec fn requests_view(v: Seq<SavedRequest>) -> Seq<RequestView> {
    v.map_values(|r: SavedRequest| r@)
}

/// Every request of the list has unique header names.
pub open spec fn all_wf(v: Seq<SavedRequest>) -> bool {
    forall|i: int| 0 <= i < v.len() ==> #[trigger] v[i].wf()
}

/// What a collection holds, as plain values.
pub struct CollectionView {
    pub name: Seq<char>,
    pub description: Option<Seq<char>>,
    pub requests: Seq<RequestView>,
    pub created_at: i64,
    pub updated_at: i64,
}

/// A named group of requests, owned by value.
#[derive(Debug, Clone)]
pub struct RequestCollection {
    pub name: String,
    pub description: Option<String>,
    pub requests: Vec<SavedRequest>,
    pub created_at: i64,
    pub updated_at: i64,
}

impl View for RequestCollection {
    type V = CollectionView;

    open spec fn view(&self) -> CollectionView {
        CollectionView {
            name: self.name@,
            description: opt_view(self.description),
            requests: requests_view(self.requests@),
            created_at: self.created_at,
            updated_at: self.updated_at,
        }
    }
}

/// A copy of a list of requests.
pub fn copy_requests(v: &Vec<SavedRequest>) -> (r: Vec<SavedRequest>)
    requires
        all_wf(v@),
    ensures
        all_wf(r@),
        requests_view(r@) == requests_view(v@),
{
    let mut out: Vec<SavedRequest> = Vec::new();
    let mut i: usize = 0;
    while i < v.len()
        invariant
            i <= v@.len(),
            all_wf(v@),
            all_wf(out@),
            requests_view(out@) == requests_view(v@.subrange(0, i as int)),
        decreases v@.len() - i,
    {
        let c = v[i].copy();
        let ghost before = out@;
        out.push(c);
        proof {
            assert(before.len() == i) by {
                assert(requests_view(before).len() == before.len());
                assert(requests_view(v@.subrange(0, i as int)).len() == i);
            }
            assert forall|j: int| 0 <= j < i implies out@[j]@ == v@[j]@ by {
                assert(requests_view(before)[j] == before[j]@);
                assert(requests_view(v@.subrange(0, i as int))[j] == v@[j]@);
                assert(out@[j] == before[j]);
            }
        }
        i = i + 1;
        assert(requests_view(out@) =~= requests_view(v@.subrange(0, i as int)));
    }
    assert(v@.subrange(0, i as int) =~= v@);
    out
}

impl RequestCollection {
    /// Every request has unique header names.
    pub open spec fn wf(&self) -> bool {
        all_wf(self.requests@)
    }

    /// An empty collection created at `now`.
    pub fn with_time(name: String, now: i64) -> (r: Self)
        ensures
            r.wf(),
            r@ == (CollectionView {
                name: name@,
                description: None,
                requests: Seq::empty(),
                created_at: now,
                updated_at: now,
            }),
    {
        let r = RequestCollection {
            name,
            description: None,
            requests: Vec::new(),
            created_at: now,
            updated_at: now,
        };
        assert(requests_view(r.requests@) =~= Seq::<RequestView>::empty());
        r
    }

    /// An empty collection created now.
    pub fn new(name: String) -> (r: Self)
        ensures
            r.wf(),
            r@.name == name@,
            r@.description is None,
            r@.requests.len() == 0,
            r@.updated_at == r@.created_at,
    {
        Self::with_time(name, now_millis())
    }

    /// A copy with the same contents.
    pub fn copy(&self) -> (r: Self)
        requires
            self.wf(),
        ensures
            r.wf(),
            r@ == self@,
    {
        RequestCollection {
            name: self.name.clone(),
            description: copy_opt(&self.description),
            requests: copy_requests(&self.requests),
            created_at: self.created_at,
            updated_at: self.updated_at,
        }
    }

    /// Appends a request.
    pub fn add_request(&mut self, request: SavedRequest)
        requires
            old(self).wf(),
            request.wf(),
        ensures
            final(self).wf(),
            final(self)@ == (CollectionView {
                requests: old(self)@.requests.push(request@),
                updated_at: final(self)@.updated_at,
                ..old(self)@
            }),
            final(self).updated_at >= old(self).updated_at,
    {
        let ghost rv = request@;
        self.requests.push(request);
        assert(requests_view(self.requests@) =~= old(self)@.requests.push(rv));
        let now = now_millis();
        if now > self.updated_at {
            self.updated_at = now;
        }
    }

    /// Deletes every request with identifier `request_id`; returns whether any was there.
    pub fn remove_request(&mut self, request_id: &str) -> (r: bool)
        requires
            old(self).wf(),
        ensures
            final(self).wf(),
            r == exists|i: int|
                0 <= i < old(self)@.requests.len() && (#[trigger] old(self)@.requests[i]).id
                    == request_id@,
            final(self)@.requests == old(self)@.requests.filter(
                |q: RequestView| q.id != request_id@,
            ),
            final(self)@.name == old(self)@.name,
            final(self)@.description == old(self)@.description,
            final(self)@.created_at == old(self)@.created_at,
            !r ==> final(self)@ == old(self)@,
            final(self).updated_at >= old(self).updated_at,
    {
        let ghost ov = requests_view(old(self).requests@);
        let mut kept: Vec<SavedRequest> = Vec::new();
        let mut found = false;
        let mut rest: Vec<SavedRequest> = Vec::new();
        std::mem::swap(&mut rest, &mut self.requests);
        let ghost orig = rest@;
        let mut i: usize = 0;
        let total = rest.len();
        while rest.len() > 0
            invariant
                orig == old(self).requests@,
                ov == requests_view(orig),
                all_wf(orig),
                i + rest@.len() == total,
                total == orig.len(),
                rest@ == orig.subrange(i as int, total as int),
                all_wf(kept@),
                requests_view(kept@) == ov.subrange(0, i as int).filter(
                    |q: RequestView| q.id != request_id@,
                ),
                found == exists|j: int| 0 <= j < i && (#[trigger] ov[j]).id == request_id@,
                !found ==> requests_view(kept@) == ov.subrange(0, i as int),
            decreases rest@.len(),
        {
            let item = rest.remove(0);
            assert(item == orig[i as int]);
            assert(ov.subrange(0, i + 1).drop_last() =~= ov.subrange(0, i as int));
            proof {
                reveal(Seq::filter);
            }
            if str_eq(item.id.as_str(), request_id) {
                found = true;
            } else {
                kept.push(item);
            }
            i = i + 1;
            assert(requests_view(kept@) =~= ov.subrange(0, i as int).filter(
                |q: RequestView| q.id != request_id@,
            ));
            assert(rest@ =~= orig.subrange(i as int, total as int));
            assert(!found ==> requests_view(kept@) =~= ov.subrange(0, i as int));
        }
        assert(ov.subrange(0, i as int) =~= ov);
        self.requests = kept;
        if found {
            let now = now_millis();
            if now > self.updated_at {
                self.updated_at = now;
            }
        } else {
            assert(requests_view(self.requests@) =~= ov);
        }
        found
    }

    /// The first request named `name`.
    pub fn find_request(&self, name: &str) -> (r: Option<&SavedRequest>)
        ensures
            match r {
                Some(q) => exists|i: int|
                    0 <= i < self.requests@.len() && self.requests@[i] == *q && q@.name == name@
                        && forall|j: int| 0 <= j < i ==> #[trigger] self@.requests[j].name != name@,
                None => forall|j: int|
                    0 <= j < self.requests@.len() ==> #[trigger] self@.requests[j].name != name@,
            },
    {
        match self.position(name) {
            Some(i) => Some(&self.requests[i]),
            None => None,
        }
    }

    /// The first request named `name`, to change in place.
    pub fn find_request_mut(&mut self, name: &str) -> (r: Option<&mut SavedRequest>)
        ensures
            r is None ==> *final(self) == *old(self) && forall|j: int|
                0 <= j < old(self).requests@.len() ==> #[trigger] old(self)@.requests[j].name
                    != name@,
            r is Some ==> exists|i: int|
                0 <= i < old(self).requests@.len() && *r->Some_0 == old(self).requests@[i]
                    && old(self)@.requests[i].name == name@ && (forall|j: int|
                    0 <= j < i ==> #[trigger] old(self)@.requests[j].name != name@)
                    && final(self).requests@ == old(self).requests@.update(i, *final(r->Some_0))
                    && final(self).name == old(self).name && final(self).description
                    == old(self).description && final(self).created_at == old(self).created_at
                    && final(self).updated_at == old(self).updated_at,
    {
        match self.position(name) {
            Some(i) => Some(&mut self.requests[i]),
            None => None,
        }
    }

    /// The position of the first request named `name`.
    fn position(&self, name: &str) -> (r: Option<usize>)
        ensures
            match r {
                Some(i) => i < self.requests@.len() && self@.requests[i as int].name == name@
                    && forall|j: int| 0 <= j < i ==> #[trigger] self@.requests[j].name != name@,
                None => forall|j: int|
                    0 <= j < self.requests@.len() ==> #[trigger] self@.requests[j].name != name@,
            },
    {
        let mut i: usize = 0;
        while i < self.requests.len()
            invariant
                i <= self.requests@.len(),
                forall|j: int| 0 <= j < i ==> #[trigger] self@.requests[j].name != name@,
            decreases self.requests@.len() - i,
        {
            if str_eq(self.requests[i].name.as_str(), name) {
                return Some(i);
            }
            i = i + 1;
        }
        None
    }
}

impl Duplicate for SavedRequest {
    open spec fn dup_ok(&self) -> bool {
        self.wf()
    }

    fn duplicate(&self) -> (r: Self) {
        self.copy()
    }
}

impl Duplicate for RequestCollection {
    open spec fn dup_ok(&self) -> bool {
        self.wf()
    }

    fn duplicate(&self) -> (r: Self) {
        self.copy()
    }
}

/// What `validate_request` accepts: a parsing URL, a supported verb as
/// written, a JSON body where the `Content-Type` mentions JSON, and a timeout
/// from 1 to 3600 seconds when one is set.
pub open spec fn request_ok(r: RequestView) -> bool {
    &&& url_parses(r.url)
    &&& is_method_name(r.method)
    &&& (r.body is Some && r.headers.contains_key("Content-Type"@) && crate::text::contains(
        r.headers["Content-Type"@],
        "application/json"@,
    ) ==> json_parses(r.body->Some_0))
    &&& (r.timeout is Some ==> crate::validate::timeout_ok(r.timeout->Some_0))
}

/// Checks a request before it is executed; see `request_ok`.
pub fn validate_request(request: &SavedRequest) -> (r: Result<(), TerziError>)
    requires
        request.wf(),
    ensures
        r is Ok <==> request_ok(request@),
        r is Err ==> (r matches Err(TerziError::InvalidInput(_))),
{
    if !is_valid_url(request.url.as_str()) {
        let mut msg = owned("Invalid URL: ");
        msg.append(request.url.as_str());
        return Err(TerziError::InvalidInput(msg));
    }
    if !is_method_name_exec(request.method.as_str()) {
        let mut msg = owned("Invalid HTTP method: ");
        msg.append(request.method.as_str());
        return Err(TerziError::InvalidInput(msg));
    }
    match &request.body {
        Some(body) => match request.headers.get("Content-Type") {
            Some(ct) => {
                if crate::text::contains_exec(ct.as_str(), "application/json") && !is_valid_json(
                    body.as_str(),
                ) {
                    return Err(TerziError::InvalidInput(owned("Invalid JSON body")));
                }
            },
            None => {},
        },
        None => {},
    }
    match request.timeout {
        Some(t) => {
            if t == 0 || t > 3600 {
                return Err(
                    TerziError::InvalidInput(owned("Timeout must be between 1 and 3600 seconds")),
                );
            }
        },
        None => {},
    }
    Ok(())
}

/// A request to `url` with `method`, which must be written in upper case.
fn create_upper(url: &str, method: &str) -> (r: Result<SavedRequest, TerziError>)
    requires
        forall|i: int| 0 <= i < method@.len() ==> 'A' <= #[trigger] method@[i] <= 'Z',
    ensures
        r is Ok <==> url_parses(url@) && is_method_name(method@),
        r is Err ==> (r matches Err(TerziError::InvalidInput(_))),
        r is Ok ==> r->Ok_0.wf() && r->Ok_0@.url == url@ && r->Ok_0@.method == method@
            && r->Ok_0@.headers == Map::<Seq<char>, Seq<char>>::empty() && r->Ok_0@.body is None,
{
    upper_keeps(method);
    match RequestBuilder::new(url, method) {
        Ok(b) => Ok(b.build()),
        Err(e) => Err(e),
    }
}

/// A `GET` request to `url`.
pub fn create_get_request(url: &str) -> (r: Result<SavedRequest, TerziError>)
    ensures
        r is Ok <==> url_parses(url@),
        r is Err ==> (r matches Err(TerziError::InvalidInput(_))),
        r is Ok ==> r->Ok_0.wf() && r->Ok_0@.url == url@ && r->Ok_0@.method == "GET"@
            && r->Ok_0@.headers == Map::<Seq<char>, Seq<char>>::empty() && r->Ok_0@.body is None,
{
    proof {
        reveal_strlit("GET");
    }
    create_upper(url, "GET")
}

/// A `POST` request to `url` with a JSON body.
pub fn create_post_json_request(url: &str, json_body: &str) -> (r: Result<SavedRequest, TerziError>)
    ensures
        r is Ok <==> url_parses(url@) && json_parses(json_body@),
        r is Err ==> (r matches Err(TerziError::InvalidInput(_))),
        r is Ok ==> r->Ok_0.wf() && r->Ok_0@.url == url@ && r->Ok_0@.method == "POST"@
            && r->Ok_0@.headers == Map::<Seq<char>, Seq<char>>::empty().insert(
            "Content-Type"@,
            "application/json"@,
        ) && r->Ok_0@.body == Some(json_body@),
{
    proof {
        reveal_strlit("POST");
    }
    upper_keeps("POST");
    match RequestBuilder::new(url, "POST") {
        Ok(b) => match b.json_body(json_body) {
            Ok(b) => Ok(b.build()),
            Err(e) => Err(e),
        },
        Err(e) => Err(e),
    }
}

/// A request to `url` with `method` and a bearer token.
pub fn create_authenticated_request(url: &str, method: &str, token: &str) -> (r: Result<
    SavedRequest,
    TerziError,
>)
    ensures
        r is Ok <==> url_parses(url@) && is_method_name(upper_of(method@)),
        r is Err ==> (r matches Err(TerziError::InvalidInput(_))),
        r is Ok ==> r->Ok_0.wf() && r->Ok_0@.url == url@ && r->Ok_0@.method == upper_of(method@)
            && r->Ok_0@.headers == Map::<Seq<char>, Seq<char>>::empty().insert(
            "Authorization"@,
            "Bearer "@ + token@,
        ),
{
    match RequestBuilder::new(url, method) {
        Ok(b) => {
            let mut spec_text = owned("bearer:");
            spec_text.append(token);
            proof {
                reveal_strlit("bearer:");
                reveal_strlit("bearer");
                reveal_strlit(":");
                let a = spec_text@;
                assert(a.subrange(0, 6) =~= "bearer"@);
                assert(a.subrange(7, a.len() as int) =~= token@);
                assert(a =~= "bearer:"@ + token@);
                assert forall|k: int| 0 <= k < 6 implies !crate::text::occurs_at(a, ":"@, k) by {
                    assert(a.subrange(k, k + 1)[0] == a[k]);
                }
                assert(crate::text::occurs_at(a, ":"@, 6)) by {
                    assert(a.subrange(6, 7) =~= ":"@);
                }
                reveal_with_fuel(find_spec, 8);
                assert(find_spec(a, ":"@, 0) == Some(6int));
            }
            lower_keeps("bearer");
            match b.auth(spec_text.as_str()) {
                Ok(b) => Ok(b.build()),
                Err(e) => Err(e),
            }
        },
        Err(e) => Err(e),
    }
}

} // verus!
