//! Turning command-line request options into a validated request, and
//! suggesting commands for a mistyped one.

use vstd::prelude::*;
use vstd::string::*;
use crate::config::Config;
use crate::error::TerziError;
use crate::request::{
    auth_outcome, form_encoded, opt_view, percent_of, AuthOutcome, RequestBuilder, RequestView, SavedRequest,
};
use crate::table::{has_key, index_of, keys_unique, Table};
use crate::text::{
    contains, contains_exec, find_from, find_spec, lower_of, owned, starts_with, to_lower, upper_of,
};
use crate::util::{trim_of, trim_text};
use crate::validate::{
    header_name_ok, header_value_ok, is_method_name, is_valid_header_name, is_valid_header_value,
    json_parses, timeout_ok, url_parses,
};

verus! {

/// The request options given on the command line.
#[derive(Debug, Clone)]
pub struct RequestArgs {
    pub method: String,
    /// Each `key:value`.
    pub headers: Vec<String>,
    pub body: Option<String>,
    pub json: Option<String>,
    /// Each `key=value`.
    pub form_data: Vec<String>,
    pub auth: Option<String>,
    pub follow_redirects: bool,
    /// Seconds; 30 stands for the configured default.
    pub timeout: u64,
}

/// A `key:value` header option, trimmed, when it is well formed.
pub open spec fn parsed_header(h: Seq<char>) -> Option<(Seq<char>, Seq<char>)> {
    match find_spec(h, ":"@, 0) {
        Some(i) => {
            let k = trim_of(h.subrange(0, i));
            let v = trim_of(h.subrange(i + 1, h.len() as int));
            if header_name_ok(k) && header_value_ok(v) {
                Some((k, v))
            } else {
                None
            }
        },
        None => None,
    }
}

/// The headers that the options set, in order; a later one wins.
pub open spec fn header_options(hs: Seq<Seq<char>>) -> Map<Seq<char>, Seq<char>>
    decreases hs.len(),
{
    if hs.len() == 0 {
        Map::empty()
    } else {
        let prev = header_options(hs.drop_last());
        match parsed_header(hs.last()) {
            Some(p) => prev.insert(p.0, p.1),
            None => prev,
        }
    }
}

/// A `key=value` form option split at its first `=`.
pub open spec fn parsed_pair(p: Seq<char>) -> Option<(Seq<char>, Seq<char>)> {
    match find_spec(p, "="@, 0) {
        Some(i) => Some((p.subrange(0, i), p.subrange(i + 1, p.len() as int))),
        None => None,
    }
}

/// The characters of each key and value of table entries, in order.
pub open spec fn pair_views(es: Seq<(String, String)>) -> Seq<(Seq<char>, Seq<char>)> {
    es.map_values(|p: (String, String)| (p.0@, p.1@))
}

/// `ps` with `k` set to `v`: in place where `k` is present, else at the end.
pub open spec fn put_pair(ps: Seq<(Seq<char>, Seq<char>)>, k: Seq<char>, v: Seq<char>) -> Seq<
    (Seq<char>, Seq<char>),
> {
    if exists|i: int| 0 <= i < ps.len() && ps[i].0 == k {
        ps.update(choose|i: int| 0 <= i < ps.len() && ps[i].0 == k, (k, v))
    } else {
        ps.push((k, v))
    }
}

/// The form fields that the options give, in order; a repeated key keeps its
/// first place and takes its last value.
pub open spec fn form_fields(opts: Seq<Seq<char>>) -> Seq<(Seq<char>, Seq<char>)>
    decreases opts.len(),
{
    if opts.len() == 0 {
        Seq::empty()
    } else {
        let prev = form_fields(opts.drop_last());
        match parsed_pair(opts.last()) {
            Some(kv) => put_pair(prev, kv.0, kv.1),
            None => prev,
        }
    }
}

/// Fields percent-encoded as `k=v` and joined by `&`, in order.
pub open spec fn form_text(ps: Seq<(Seq<char>, Seq<char>)>) -> Seq<char>
    decreases ps.len(),
{
    if ps.len() == 0 {
        Seq::empty()
    } else {
        let pair = percent_of(ps.last().0) + "="@ + percent_of(ps.last().1);
        if ps.len() == 1 {
            pair
        } else {
            form_text(ps.drop_last()) + "&"@ + pair
        }
    }
}

/// Encoding table entries is encoding their characters.
proof fn lemma_form_encoded_views(es: Seq<(String, String)>)
    ensures
        form_encoded(es) == form_text(pair_views(es)),
    decreases es.len(),
{
    if es.len() > 0 {
        lemma_form_encoded_views(es.drop_last());
        assert(pair_views(es.drop_last()) =~= pair_views(es).drop_last());
    }
}

/// Inserting into a table updates the characters of its entries as `put_pair` does.
proof fn lemma_insert_views(o: Seq<(String, String)>, n: Seq<(String, String)>, k: String, v: String)
    requires
        keys_unique(o),
        has_key(o, k@) ==> n == o.update(index_of(o, k@), (k, v)),
        !has_key(o, k@) ==> n == o.push((k, v)),
    ensures
        pair_views(n) == put_pair(pair_views(o), k@, v@),
{
    let pv = pair_views(o);
    if has_key(o, k@) {
        let i = index_of(o, k@);
        assert(pv[i].0 == k@);
        let j = choose|j: int| 0 <= j < pv.len() && pv[j].0 == k@;
        assert(o[j].0@ == k@);
        if i != j {
            if i < j {
                assert(o[i].0@ != o[j].0@);
            } else {
                assert(o[j].0@ != o[i].0@);
            }
        }
        assert(pair_views(n) =~= pv.update(i, (k@, v@)));
    } else {
        assert(!exists|j: int| 0 <= j < pv.len() && pv[j].0 == k@) by {
            if exists|j: int| 0 <= j < pv.len() && pv[j].0 == k@ {
                let j = choose|j: int| 0 <= j < pv.len() && pv[j].0 == k@;
                assert(o[j].0@ == k@);
            }
        }
        assert(pair_views(n) =~= pv.push((k@, v@)));
    }
}

/// How many body kinds the options give.
pub open spec fn body_kinds(a: RequestArgs) -> nat {
    (if a.json is Some {
        1nat
    } else {
        0nat
    }) + (if a.body is Some {
        1nat
    } else {
        0nat
    }) + (if a.form_data@.len() > 0 {
        1nat
    } else {
        0nat
    })
}

/// The timeout in force: the option, unless it is 30, which stands for the
/// configured default.
pub open spec fn chosen_timeout(a: RequestArgs, c: Config) -> u64 {
    if a.timeout == 30 {
        c.general.default_timeout
    } else {
        a.timeout
    }
}

/// Whether the options describe a valid request.
pub open spec fn args_ok(a: RequestArgs, url: Seq<char>, c: Config) -> bool {
    &&& url_parses(url)
    &&& is_method_name(upper_of(a.method@))
    &&& forall|i: int| 0 <= i < a.headers@.len() ==> (#[trigger] parsed_header(a.headers@[i]@)) is Some
    &&& (a.auth is Some ==> auth_outcome(a.auth->Some_0@) is Header)
    &&& body_kinds(a) <= 1
    &&& (a.json is Some ==> json_parses(a.json->Some_0@))
    &&& forall|i: int| 0 <= i < a.form_data@.len() ==> (#[trigger] parsed_pair(a.form_data@[i]@)) is Some
    &&& timeout_ok(chosen_timeout(a, c))
}

/// The characters of each string.
pub open spec fn arg_texts(v: Seq<String>) -> Seq<Seq<char>> {
    v.map_values(|s: String| s@)
}

/// Parses one header option; see `parsed_header`.
fn parse_header_option(h: &str) -> (r: Option<(String, String)>)
    ensures
        match parsed_header(h@) {
            Some(p) => r is Some && r->Some_0.0@ == p.0 && r->Some_0.1@ == p.1,
            None => r is None,
        },
{
    let n = h.unicode_len();
    proof {
        reveal_strlit(":");
    }
    match find_from(h, ":", 0) {
        Some(i) => {
            let k = trim_text(h.substring_char(0, i));
            let v = trim_text(h.substring_char(i + 1, n));
            if is_valid_header_name(k.as_str()) && is_valid_header_value(v.as_str()) {
                Some((k, v))
            } else {
                None
            }
        },
        None => None,
    }
}

/// Parses one form option; see `parsed_pair`.
fn parse_pair_option(p: &str) -> (r: Option<(String, String)>)
    ensures
        match parsed_pair(p@) {
            Some(kv) => r is Some && r->Some_0.0@ == kv.0 && r->Some_0.1@ == kv.1,
            None => r is None,
        },
{
    let n = p.unicode_len();
    proof {
        reveal_strlit("=");
    }
    match find_from(p, "=", 0) {
        Some(i) => Some((owned(p.substring_char(0, i)), owned(p.substring_char(i + 1, n)))),
        None => None,
    }
}

/// The request that valid options describe: the headers first, then the
/// authorization, then the body, the timeout in force, and redirects followed
/// when the option or the configuration asks for it. Fails with
/// `InvalidInput`, or `UnsupportedAuthType` for an unknown scheme, when
/// `args_ok` does not hold.
pub fn build_request_from_cli(args: &RequestArgs, url: &str, config: &Config) -> (r: Result<
    SavedRequest,
    TerziError,
>)
    ensures
        r is Ok <==> args_ok(*args, url@, *config),
        r is Ok ==> {
            let q = r->Ok_0@;
            &&& r->Ok_0.wf()
            &&& q.url == url@
            &&& q.method == upper_of(args.method@)
            &&& q.timeout == Some(chosen_timeout(*args, *config))
            &&& q.follow_redirects == Some(args.follow_redirects || config.general.follow_redirects)
            &&& q.body == (if args.json is Some {
                Some(args.json->Some_0@)
            } else if args.body is Some {
                Some(args.body->Some_0@)
            } else if args.form_data@.len() > 0 {
                Some(form_text(form_fields(arg_texts(args.form_data@))))
            } else {
                None
            })
            &&& forall|k: Seq<char>|
                header_options(arg_texts(args.headers@)).contains_key(k) && k != "Authorization"@
                    && k != "Content-Type"@ && (args.auth is Some ==> auth_outcome(
                    args.auth->Some_0@,
                ) != AuthOutcome::Header(k, q.headers[k])) ==> q.headers.contains_key(k)
                    && q.headers[k] == header_options(arg_texts(args.headers@))[k]
        },
{
    if !crate::validate::is_valid_url(url) {
        let mut msg = owned("Invalid URL: ");
        msg.append(url);
        msg.append(". Please provide a valid URL starting with http:// or https://");
        return Err(TerziError::InvalidInput(msg));
    }
    crate::validate::validate_method(args.method.as_str())?;
    let mut builder = RequestBuilder::new(url, args.method.as_str())?;
    let ghost hs = arg_texts(args.headers@);
    let mut i: usize = 0;
    while i < args.headers.len()
        invariant
            builder.wf(),
            hs == arg_texts(args.headers@),
            i <= args.headers@.len(),
            forall|j: int| 0 <= j < i ==> (#[trigger] parsed_header(args.headers@[j]@)) is Some,
            builder@.headers == header_options(hs.take(i as int)),
            builder@.url == url@,
            builder@.method == upper_of(args.method@),
            builder@.body is None,
            builder@.timeout is None,
        decreases args.headers@.len() - i,
    {
        assert(hs.take(i + 1).drop_last() =~= hs.take(i as int));
        assert(hs.take(i + 1).last() == args.headers@[i as int]@);
        match parse_header_option(args.headers[i].as_str()) {
            Some((k, v)) => {
                builder = builder.header(k.as_str(), v.as_str());
            },
            None => {
                let mut msg = owned("Invalid header: '");
                msg.append(args.headers[i].as_str());
                msg.append("'. Use 'key:value' with an ASCII name and no line breaks");
                return Err(TerziError::InvalidInput(msg));
            },
        }
        i = i + 1;
    }
    assert(hs.take(i as int) =~= hs);
    match &args.auth {
        Some(a) => {
            builder = builder.auth(a.as_str())?;
        },
        None => {},
    }
    let kinds: usize = (if args.json.is_some() { 1 } else { 0 }) + (if args.body.is_some() {
        1
    } else {
        0
    }) + (if args.form_data.len() > 0 {
        1
    } else {
        0
    });
    if kinds > 1 {
        return Err(
            TerziError::InvalidInput(owned("Only one body type allowed: --json, --body, or --form")),
        );
    }
    match &args.json {
        Some(j) => {
            builder = builder.json_body(j.as_str())?;
        },
        None => match &args.body {
            Some(b) => {
                builder = builder.raw_body(b.as_str());
            },
            None => {
                if args.form_data.len() > 0 {
                    let mut form: Table<String> = Table::new();
                    let mut f: usize = 0;
                    let ghost opts = arg_texts(args.form_data@);
                    assert(pair_views(form.entries@) =~= form_fields(opts.take(0)));
                    while f < args.form_data.len()
                        invariant
                            form.wf(),
                            f <= args.form_data@.len(),
                            opts == arg_texts(args.form_data@),
                            pair_views(form.entries@) == form_fields(opts.take(f as int)),
                            forall|j: int|
                                0 <= j < f ==> (#[trigger] parsed_pair(args.form_data@[j]@)) is Some,
                        decreases args.form_data@.len() - f,
                    {
                        assert(opts.take(f + 1).drop_last() =~= opts.take(f as int));
                        assert(opts.take(f + 1).last() == args.form_data@[f as int]@);
                        match parse_pair_option(args.form_data[f].as_str()) {
                            Some((k, v)) => {
                                let ghost o = form.entries@;
                                let ghost kk = k;
                                let ghost vv = v;
                                form.insert(k, v);
                                proof {
                                    lemma_insert_views(o, form.entries@, kk, vv);
                                }
                            },
                            None => {
                                let mut msg = owned("Invalid form data: '");
                                msg.append(args.form_data[f].as_str());
                                msg.append("'. Use 'key=value'");
                                return Err(TerziError::InvalidInput(msg));
                            },
                        }
                        f = f + 1;
                    }
                    proof {
                        assert(opts.take(f as int) =~= opts);
                        lemma_form_encoded_views(form.entries@);
                    }
                    builder = builder.form_body(form)?;
                }
            },
        },
    }
    let timeout = if args.timeout == 30 {
        config.general.default_timeout
    } else {
        args.timeout
    };
    crate::validate::validate_timeout(timeout)?;
    builder = builder.timeout(timeout);
    builder = builder.follow_redirects(args.follow_redirects || config.general.follow_redirects);
    Ok(builder.build())
}

/// The commands that can be suggested.
pub open spec fn command_names() -> Seq<Seq<char>> {
    seq![
        "interactive"@,
        "list"@,
        "show"@,
        "delete"@,
        "edit"@,
        "history"@,
        "config"@,
        "import"@,
        "export"@,
        "help"@,
        "version"@,
    ]
}

/// A command is suggested for `input` when `input` is empty or occurs in it
/// ignoring case, or when one begins with the other.
pub open spec fn suggests(input: Seq<char>, cmd: Seq<char>) -> bool {
    input.len() == 0 || contains(lower_of(cmd), lower_of(input)) || starts_with(cmd, input)
        || starts_with(input, cmd)
}

/// The commands, in their listed order, that resemble `input`; see `suggests`.
pub fn suggest_similar_commands(input: &str) -> (r: Vec<&'static str>)
    ensures
        r@.map_values(|c: &'static str| c@) == command_names().filter(
            |c: Seq<char>| suggests(input@, c),
        ),
{
    let commands: Vec<&'static str> = vec![
        "interactive",
        "list",
        "show",
        "delete",
        "edit",
        "history",
        "config",
        "import",
        "export",
        "help",
        "version",
    ];
    let ghost cs = commands@.map_values(|c: &'static str| c@);
    assert(cs =~= command_names());
    let li = to_lower(input);
    let mut out: Vec<&'static str> = Vec::new();
    let mut i: usize = 0;
    while i < commands.len()
        invariant
            i <= commands@.len(),
            cs == commands@.map_values(|c: &'static str| c@),
            li@ == lower_of(input@),
            out@.map_values(|c: &'static str| c@) == cs.take(i as int).filter(
                |c: Seq<char>| suggests(input@, c),
            ),
        decreases commands@.len() - i,
    {
        let cmd = commands[i];
        let lc = to_lower(cmd);
        let keep = input.unicode_len() == 0 || contains_exec(lc.as_str(), li.as_str())
            || crate::text::occurs_at_exec(cmd, input, 0) || crate::text::occurs_at_exec(
            input,
            cmd,
            0,
        );
        let ghost before = out@;
        if keep {
            out.push(cmd);
        }
        proof {
            let t = cs.take(i + 1);
            assert(t.drop_last() =~= cs.take(i as int));
            assert(t.last() == cmd@);
            assert(t.filter(|c: Seq<char>| suggests(input@, c)) == if suggests(input@, t.last()) {
                t.drop_last().filter(|c: Seq<char>| suggests(input@, c)).push(t.last())
            } else {
                t.drop_last().filter(|c: Seq<char>| suggests(input@, c))
            }) by {
                reveal(Seq::filter);
            }
            assert(out@.map_values(|c: &'static str| c@) =~= if keep {
                before.map_values(|c: &'static str| c@).push(cmd@)
            } else {
                before.map_values(|c: &'static str| c@)
            });
        }
        i = i + 1;
    }
    assert(cs.take(i as int) =~= cs);
    out
}

/// `s` padded with spaces on the right to at least `w` characters.
pub open spec fn padded(s: Seq<char>, w: nat) -> Seq<char> {
    if s.len() >= w {
        s
    } else {
        s + Seq::new((w - s.len()) as nat, |i: int| ' ')
    }
}

/// One line per item: two spaces, the name padded to 20, a space and the
/// description.
pub open spec fn help_lines(items: Seq<(&str, &str)>) -> Seq<char>
    decreases items.len(),
{
    if items.len() == 0 {
        Seq::empty()
    } else {
        help_lines(items.drop_last()) + "  "@ + padded(items.last().0@, 20) + " "@ + items.last().1@
            + "\n"@
    }
}

/// A titled block of help lines followed by a blank line.
pub fn format_help_section(title: &str, items: &[(&str, &str)]) -> (r: String)
    ensures
        r@ == title@ + ":\n"@ + help_lines(items@) + "\n"@,
{
    let mut out = owned(title);
    out.append(":\n");
    let ghost head = out@;
    let mut i: usize = 0;
    while i < items.len()
        invariant
            i <= items@.len(),
            out@ == head + help_lines(items@.take(i as int)),
        decreases items@.len() - i,
    {
        assert(items@.take(i + 1).drop_last() =~= items@.take(i as int));
        let (name, description) = items[i];
        out.append("  ");
        out.append(name);
        let n = name.unicode_len();
        let mut k: usize = n;
        while k < 20
            invariant
                n == name@.len(),
                n <= k <= 20 || (k == n && n > 20),
                out@ == head + help_lines(items@.take(i as int)) + "  "@ + name@ + Seq::new(
                    (k - n) as nat,
                    |j: int| ' ',
                ),
            decreases 20 - k,
        {
            crate::text::push_char(&mut out, ' ');
            k = k + 1;
            assert(out@ =~= head + help_lines(items@.take(i as int)) + "  "@ + name@ + Seq::new(
                (k - n) as nat,
                |j: int| ' ',
            ));
        }
        proof {
            if n >= 20 {
                assert(Seq::new((k - n) as nat, |j: int| ' ') =~= Seq::<char>::empty());
            }
        }
        out.append(" ");
        out.append(description);
        out.append("\n");
        i = i + 1;
        assert(out@ =~= head + help_lines(items@.take(i as int)));
    }
    assert(items@.take(i as int) =~= items@);
    out.append("\n");
    out
}

} // verus!
