//! Helpers around requests and responses: content types, template variables,
//! header tables, URLs, JSON text, masking, timing and color schemes.

use vstd::prelude::*;
use vstd::string::*;
use crate::error::TerziError;
use crate::request::{contains_string, opt_view, strings_view};
use crate::table::{Duplicate, Table};
use crate::template::lemma_find_some;
use crate::text::{
    contains, contains_exec, find_from, find_spec, has_char, has_char_exec, lex_le, lex_le_exec,
    lemma_lex_total, lower_of, owned, push_char, str_eq, to_lower,
};
use crate::validate::{
    is_valid_json, json_parses, json_print, json_printed, url_parses, url_parts, url_parts_of,
};

verus! {

/// A character of the Unicode `White_Space` property, which `char::is_whitespace` tests.
pub open spec fn is_white_space(c: char) -> bool {
    let u = c as u32;
    (0x9 <= u <= 0xD) || u == 0x20 || u == 0x85 || u == 0xA0 || u == 0x1680 || (0x2000 <= u
        <= 0x200A) || u == 0x2028 || u == 0x2029 || u == 0x202F || u == 0x205F || u == 0x3000
}

/// `s` without leading white space.
pub open spec fn trim_start_of(s: Seq<char>) -> Seq<char>
    decreases s.len(),
{
    if s.len() > 0 && is_white_space(s[0]) {
        trim_start_of(s.skip(1))
    } else {
        s
    }
}

/// `s` without trailing white space.
pub open spec fn trim_end_of(s: Seq<char>) -> Seq<char>
    decreases s.len(),
{
    if s.len() > 0 && is_white_space(s.last()) {
        trim_end_of(s.drop_last())
    } else {
        s
    }
}

/// `s` without leading and trailing white space, as `str::trim` gives it.
pub open spec fn trim_of(s: Seq<char>) -> Seq<char> {
    trim_end_of(trim_start_of(s))
}

/// Relies on `str::trim`: the text without leading and trailing characters
/// of the `White_Space` property.
#[verifier::external_body]
pub(crate) fn trim_text(s: &str) -> (r: String)
    ensures
        r@ == trim_of(s@),
{
    s.trim().to_string()
}

/// The body's probable media type: JSON when the trimmed text starts with `{`
/// or `[` and parses; XML when it starts with `<`; a form when it holds `=`
/// and no line break; else plain text.
pub open spec fn guessed_type(body: Seq<char>) -> Seq<char> {
    let t = trim_of(body);
    if t.len() > 0 && (t[0] == '{' || t[0] == '[') && json_parses(t) {
        "application/json"@
    } else if t.len() > 0 && t[0] == '<' {
        "application/xml"@
    } else if has_char(t, '=') && !has_char(t, '\n') {
        "application/x-www-form-urlencoded"@
    } else {
        "text/plain"@
    }
}

/// Guesses a body's media type; see `guessed_type`.
pub fn guess_content_type(body: &str) -> (r: &'static str)
    ensures
        r@ == guessed_type(body@),
{
    let t = trim_text(body);
    let n = t.as_str().unicode_len();
    if n > 0 {
        let c = t.as_str().get_char(0);
        if (c == '{' || c == '[') && is_valid_json(t.as_str()) {
            return "application/json";
        }
        if c == '<' {
            return "application/xml";
        }
    }
    if has_char_exec(t.as_str(), '=') && !has_char_exec(t.as_str(), '\n') {
        "application/x-www-form-urlencoded"
    } else {
        "text/plain"
    }
}

/// The trimmed, non-empty names of the `{{name}}` patterns of `t` from
/// position `start` on, left to right; the scan stops at an opener without a
/// closer.
pub open spec fn scanned_names(t: Seq<char>, start: int) -> Seq<Seq<char>>
    decreases t.len() - start,
{
    match find_spec(t, "{{"@, start) {
        None => Seq::empty(),
        Some(p) => match find_spec(t, "}}"@, p) {
            None => Seq::empty(),
            Some(e) => if start <= p && p + 2 <= e && e + 2 <= t.len() {
                let name = trim_of(t.subrange(p + 2, e));
                let rest = scanned_names(t, e + 2);
                if name.len() > 0 {
                    seq![name] + rest
                } else {
                    rest
                }
            } else {
                Seq::empty()
            },
        },
    }
}

/// Neighbouring texts are in dictionary order and no text occurs twice.
pub open spec fn sorted_unique(s: Seq<Seq<char>>) -> bool {
    &&& forall|i: int| 0 <= i < s.len() - 1 ==> lex_le(#[trigger] s[i], s[i + 1])
    &&& forall|i: int, j: int| 0 <= i < j < s.len() ==> s[i] != s[j]
}

/// The first position whose text does not come before `s`.
fn sorted_position(v: &Vec<String>, s: &String) -> (p: usize)
    ensures
        p <= v@.len(),
        p > 0 ==> lex_le(v@[p - 1]@, s@),
        p < v@.len() ==> !lex_le(v@[p as int]@, s@),
{
    let mut p: usize = 0;
    while p < v.len() && lex_le_exec(v[p].as_str(), s.as_str())
        invariant
            p <= v@.len(),
            p > 0 ==> lex_le(v@[p - 1]@, s@),
        decreases v@.len() - p,
    {
        p = p + 1;
    }
    p
}

/// Inserting a text at its sorted position keeps neighbours in order.
proof fn lemma_insert_ordered(o: Seq<Seq<char>>, p: int, x: Seq<char>)
    requires
        forall|i: int| 0 <= i < o.len() - 1 ==> lex_le(#[trigger] o[i], o[i + 1]),
        0 <= p <= o.len(),
        p > 0 ==> lex_le(o[p - 1], x),
        p < o.len() ==> lex_le(x, o[p]),
    ensures
        forall|a: int|
            0 <= a < o.insert(p, x).len() - 1 ==> lex_le(#[trigger] o.insert(p, x)[a], o.insert(p, x)[a + 1]),
{
    let n = o.insert(p, x);
    assert forall|a: int| 0 <= a < n.len() - 1 implies lex_le(#[trigger] n[a], n[a + 1]) by {
        if a + 1 < p {
            assert(n[a] == o[a] && n[a + 1] == o[a + 1]);
        } else if a + 1 == p {
            assert(n[a] == o[a] && n[a + 1] == x);
        } else if a == p {
            assert(n[a] == x && n[a + 1] == o[a]);
        } else {
            assert(n[a] == o[a - 1] && n[a + 1] == o[a]);
        }
    }
}

/// Inserting a new text keeps the list without repeats and adds just that text.
proof fn lemma_insert_new(o: Seq<Seq<char>>, p: int, x: Seq<char>)
    requires
        forall|a: int, b: int| 0 <= a < b < o.len() ==> o[a] != o[b],
        !o.contains(x),
        0 <= p <= o.len(),
    ensures
        forall|a: int, b: int| 0 <= a < b < o.insert(p, x).len() ==> o.insert(p, x)[a] != o.insert(p, x)[b],
        o.insert(p, x).to_set() == o.to_set().insert(x),
{
    let n = o.insert(p, x);
    assert forall|a: int, b: int| 0 <= a < b < n.len() implies n[a] != n[b] by {
        if a == p {
            assert(n[b] == o[b - 1]);
        } else if b == p {
            assert(n[a] == o[a]);
        } else {
            let a2 = if a < p { a } else { a - 1 };
            let b2 = if b < p { b } else { b - 1 };
            assert(o[a2] != o[b2]);
        }
    }
    assert forall|y: Seq<char>| n.to_set().contains(y) == o.to_set().insert(x).contains(y) by {
        if n.contains(y) {
            let k = choose|k: int| 0 <= k < n.len() && n[k] == y;
            if k < p {
                assert(o[k] == y);
            } else if k > p {
                assert(o[k - 1] == y);
            }
        }
        if o.contains(y) {
            let k = choose|k: int| 0 <= k < o.len() && o[k] == y;
            if k < p {
                assert(n[k] == y);
            } else {
                assert(n[k + 1] == y);
            }
        }
        if y == x {
            assert(n[p] == y);
        }
    }
    assert(n.to_set() =~= o.to_set().insert(x));
}

/// Adds `s` to a sorted list without repeats, unless it is there already.
fn insert_sorted_unique(v: &mut Vec<String>, s: String)
    requires
        sorted_unique(strings_view(old(v)@)),
    ensures
        sorted_unique(strings_view(final(v)@)),
        strings_view(final(v)@).to_set() == strings_view(old(v)@).to_set().insert(s@),
{
    let ghost o = strings_view(v@);
    if contains_string(v, s.as_str()) {
        assert(o.to_set().insert(s@) =~= o.to_set());
        return;
    }
    let p = sorted_position(v, &s);
    let ghost sv = s@;
    v.insert(p, s);
    proof {
        assert(strings_view(v@) =~= o.insert(p as int, sv));
        if p < o.len() {
            lemma_lex_total(o[p as int], sv);
        }
        lemma_insert_ordered(o, p as int, sv);
        lemma_insert_new(o, p as int, sv);
    }
}

/// The elements of a sequence with one more in front.
proof fn lemma_cons_set(x: Seq<char>, rest: Seq<Seq<char>>)
    ensures
        (seq![x] + rest).to_set() == rest.to_set().insert(x),
{
    let s = seq![x] + rest;
    assert forall|y: Seq<char>| s.contains(y) == (rest.contains(y) || y == x) by {
        if s.contains(y) {
            let k = choose|k: int| 0 <= k < s.len() && s[k] == y;
            if k > 0 {
                assert(rest[k - 1] == y);
            }
        }
        if rest.contains(y) {
            let k = choose|k: int| 0 <= k < rest.len() && rest[k] == y;
            assert(s[k + 1] == y);
        }
        if y == x {
            assert(s[0] == y);
        }
    }
    assert(s.to_set() =~= rest.to_set().insert(x));
}

/// The distinct names of the `{{name}}` patterns of `text`, trimmed, in
/// dictionary order; an unterminated `{{` ends the scan.
pub fn extract_template_variables(text: &str) -> (r: Vec<String>)
    ensures
        sorted_unique(strings_view(r@)),
        strings_view(r@).to_set() == scanned_names(text@, 0).to_set(),
{
    let ghost t = text@;
    let n = text.unicode_len();
    let mut out: Vec<String> = Vec::new();
    let mut start: usize = 0;
    proof {
        reveal_strlit("{{");
        reveal_strlit("}}");
        assert(strings_view(out@) =~= Seq::<Seq<char>>::empty());
    }
    while start <= n
        invariant
            t == text@,
            n == t.len(),
            sorted_unique(strings_view(out@)),
            strings_view(out@).to_set().union(scanned_names(t, start as int).to_set()) == scanned_names(
                t,
                0,
            ).to_set(),
        decreases n + 1 - start,
    {
        proof {
            reveal_strlit("{{");
            reveal_strlit("}}");
        }
        let ghost before = strings_view(out@);
        match find_from(text, "{{", start) {
            None => {
                assert(scanned_names(t, start as int) =~= Seq::<Seq<char>>::empty());
                assert(before.to_set().union(Set::empty()) =~= before.to_set());
                return out;
            },
            Some(p) => match find_from(text, "}}", p) {
                None => {
                    assert(scanned_names(t, start as int) =~= Seq::<Seq<char>>::empty());
                    assert(before.to_set().union(Set::empty()) =~= before.to_set());
                    return out;
                },
                Some(e) => {
                    proof {
                        lemma_find_some(t, "}}"@, p as int);
                        assert(t.subrange(p as int, p + 2) == "{{"@);
                        if e < p + 2 {
                            assert(t.subrange(e as int, e + 2)[0] == '}');
                            assert(t.subrange(p as int, p + 2)[e - p] == '{');
                        }
                    }
                    let raw = text.substring_char(p + 2, e);
                    let name = trim_text(raw);
                    let ghost rest = scanned_names(t, e + 2);
                    let ghost nm = name@;
                    if name.as_str().unicode_len() > 0 {
                        insert_sorted_unique(&mut out, name);
                        proof {
                            assert(scanned_names(t, start as int) == seq![nm] + rest);
                            lemma_cons_set(nm, rest);
                            assert(strings_view(out@).to_set().union(rest.to_set()) =~= scanned_names(
                                t,
                                0,
                            ).to_set());
                        }
                    } else {
                        assert(scanned_names(t, start as int) == rest);
                    }
                    start = e + 2;
                },
            },
        }
    }
    out
}

/// The pieces of `s` from position `start` on, between `;` separators.
pub open spec fn pieces_from(s: Seq<char>, start: int) -> Seq<Seq<char>>
    decreases s.len() + 1 - start,
{
    match find_spec(s, ";"@, start) {
        Some(e) => if start <= e < s.len() {
            seq![s.subrange(start, e)] + pieces_from(s, e + 1)
        } else {
            Seq::empty()
        },
        None => if 0 <= start <= s.len() {
            seq![s.subrange(start, s.len() as int)]
        } else {
            Seq::empty()
        },
    }
}

/// `s` without leading `c`s.
pub open spec fn drop_leading(s: Seq<char>, c: char) -> Seq<char>
    decreases s.len(),
{
    if s.len() > 0 && s[0] == c {
        drop_leading(s.skip(1), c)
    } else {
        s
    }
}

/// `s` without trailing `c`s.
pub open spec fn drop_trailing(s: Seq<char>, c: char) -> Seq<char>
    decreases s.len(),
{
    if s.len() > 0 && s.last() == c {
        drop_trailing(s.drop_last(), c)
    } else {
        s
    }
}

/// `s` without the double quotes at either end.
pub open spec fn unquoted(s: Seq<char>) -> Seq<char> {
    drop_trailing(drop_leading(s, '"'), '"')
}

/// A parameter piece `key=value`: the key trimmed and lower-cased, the value
/// trimmed and unquoted; `None` without `=`.
pub open spec fn param_of(p: Seq<char>) -> Option<(Seq<char>, Seq<char>)> {
    match find_spec(p, "="@, 0) {
        Some(i) => Some(
            (
                lower_of(trim_of(p.subrange(0, i))),
                unquoted(trim_of(p.subrange(i + 1, p.len() as int))),
            ),
        ),
        None => None,
    }
}

/// `m` with the parameters of `ps` set in order; a later one wins.
pub open spec fn params_fold(m: Map<Seq<char>, Seq<char>>, ps: Seq<Seq<char>>) -> Map<
    Seq<char>,
    Seq<char>,
>
    decreases ps.len(),
{
    if ps.len() == 0 {
        m
    } else {
        let m2 = match param_of(ps[0]) {
            Some(kv) => m.insert(kv.0, kv.1),
            None => m,
        };
        params_fold(m2, ps.skip(1))
    }
}

/// The text without the double quotes at either end.
fn strip_quotes(s: &str) -> (r: String)
    ensures
        r@ == unquoted(s@),
{
    let n = s.unicode_len();
    let mut a: usize = 0;
    assert(s@.skip(0) =~= s@);
    while a < n && s.get_char(a) == '"'
        invariant
            n == s@.len(),
            a <= n,
            drop_leading(s@, '"') == drop_leading(s@.skip(a as int), '"'),
        decreases n - a,
    {
        assert(s@.skip(a as int).skip(1) =~= s@.skip(a + 1));
        a = a + 1;
    }
    let ghost lead = s@.skip(a as int);
    assert(drop_leading(s@, '"') == lead);
    let mut b: usize = n;
    assert(lead.subrange(0, (b - a) as int) =~= lead);
    while b > a && s.get_char(b - 1) == '"'
        invariant
            n == s@.len(),
            a <= b <= n,
            lead == s@.skip(a as int),
            drop_trailing(lead, '"') == drop_trailing(lead.subrange(0, (b - a) as int), '"'),
        decreases b - a,
    {
        assert(lead.subrange(0, (b - a) as int).drop_last() =~= lead.subrange(0, (b - 1 - a) as int));
        b = b - 1;
    }
    let r = owned(s.substring_char(a, b));
    assert(r@ =~= lead.subrange(0, (b - a) as int));
    r
}

/// Splits a `Content-Type` value at `;`: the first piece, trimmed and
/// lower-cased, is the media type; each later `key=value` piece sets a
/// parameter (see `param_of`), a later one winning.
pub fn parse_content_type(content_type: &str) -> (r: (String, Table<String>))
    ensures
        r.1.wf(),
        r.0@ == lower_of(trim_of(pieces_from(content_type@, 0)[0])),
        r.1@ == params_fold(Map::empty(), pieces_from(content_type@, 0).skip(1)),
{
    let ghost s = content_type@;
    let n = content_type.unicode_len();
    let mut media = String::new();
    let mut table: Table<String> = Table::new();
    let mut start: usize = 0;
    let mut first = true;
    proof {
        reveal_strlit(";");
        reveal_strlit("=");
    }
    loop
        invariant
            n == s.len(),
            s == content_type@,
            start <= n,
            table.wf(),
            first ==> start == 0 && table@ == Map::<Seq<char>, Seq<char>>::empty(),
            !first ==> media@ == lower_of(trim_of(pieces_from(s, 0)[0])),
            !first ==> params_fold(table@, pieces_from(s, start as int)) == params_fold(
                Map::empty(),
                pieces_from(s, 0).skip(1),
            ),
        decreases n + 1 - start,
    {
        proof {
            reveal_strlit(";");
            reveal_strlit("=");
        }
        let found = find_from(content_type, ";", start);
        let end = match found {
            Some(e) => e,
            None => n,
        };
        proof {
            if found is Some {
                lemma_find_some(s, ";"@, start as int);
            }
        }
        let piece = content_type.substring_char(start, end);
        let ghost rest = pieces_from(s, start as int);
        assert(rest.len() > 0 && rest[0] == piece@);
        let ghost after = if found is Some {
            pieces_from(s, end + 1)
        } else {
            Seq::<Seq<char>>::empty()
        };
        assert(rest.skip(1) =~= after);
        if first {
            media = to_lower(trim_text(piece).as_str());
            first = false;
        } else {
            let ghost before = table@;
            let pn = piece.unicode_len();
            match find_from(piece, "=", 0) {
                Some(i) => {
                    let k = to_lower(trim_text(piece.substring_char(0, i)).as_str());
                    let v = strip_quotes(trim_text(piece.substring_char(i + 1, pn)).as_str());
                    table.insert(k, v);
                },
                None => {},
            }
            assert(params_fold(before, rest) == params_fold(table@, after));
        }
        match found {
            Some(e) => {
                start = e + 1;
            },
            None => {
                assert(after.len() == 0);
                return (media, table);
            },
        }
    }
}

/// What `Path::extension` gives for a file name, as text.
pub uninterp spec fn extension_of(s: Seq<char>) -> Option<Seq<char>>;

/// Relies on `std::path::Path::extension` and `OsStr::to_str`: the text after
/// the last dot of the final component, a function of the name alone.
#[verifier::external_body]
fn path_extension<'a>(filename: &'a str) -> (r: Option<&'a str>)
    ensures
        match r {
            Some(e) => extension_of(filename@) == Some(e@),
            None => extension_of(filename@) is None,
        },
{
    std::path::Path::new(filename).extension().and_then(|ext| ext.to_str())
}

/// The extension of a file name; see `extension_of`.
pub fn get_file_extension(filename: &str) -> (r: Option<&str>)
    ensures
        match r {
            Some(e) => extension_of(filename@) == Some(e@),
            None => extension_of(filename@) is None,
        },
{
    path_extension(filename)
}

/// `override_headers` laid over `base`: its values win on equal names.
pub fn merge_headers(base: &Table<String>, override_headers: &Table<String>) -> (r: Table<String>)
    requires
        base.wf(),
        override_headers.wf(),
    ensures
        r.wf(),
        r@ == base@.union_prefer_right(override_headers@),
{
    let mut r = base.duplicate();
    r.absorb(override_headers.duplicate());
    r
}

/// The header name holds one of the patterns, ignoring case.
pub open spec fn excluded_name(k: Seq<char>, patterns: Seq<&str>) -> bool {
    exists|i: int| 0 <= i < patterns.len() && contains(lower_of(k), lower_of(#[trigger] patterns[i]@))
}

/// The headers whose names hold none of the patterns, ignoring case.
pub fn filter_headers(headers: &Table<String>, exclude_patterns: &[&str]) -> (r: Table<String>)
    requires
        headers.wf(),
    ensures
        r.wf(),
        r@ == headers@.restrict(headers@.dom().filter(|k: Seq<char>| !excluded_name(k, exclude_patterns@))),
{
    let mut lowered: Vec<String> = Vec::new();
    let mut j: usize = 0;
    while j < exclude_patterns.len()
        invariant
            j <= exclude_patterns@.len(),
            lowered@.len() == j,
            forall|m: int| 0 <= m < j ==> (#[trigger] lowered@[m])@ == lower_of(exclude_patterns@[m]@),
        decreases exclude_patterns@.len() - j,
    {
        lowered.push(to_lower(exclude_patterns[j]));
        j = j + 1;
    }
    let ghost pats = exclude_patterns@;
    let mut r: Table<String> = Table::new();
    let es = &headers.entries;
    let mut i: usize = 0;
    while i < es.len()
        invariant
            headers.wf(),
            es == &headers.entries,
            r.wf(),
            i <= es@.len(),
            lowered@.len() == pats.len(),
            pats == exclude_patterns@,
            forall|m: int| 0 <= m < pats.len() ==> (#[trigger] lowered@[m])@ == lower_of(pats[m]@),
            forall|k: Seq<char>| #[trigger]
                r@.contains_key(k) == (crate::table::in_prefix(es@, i as int, k) && !excluded_name(
                    k,
                    pats,
                )),
            forall|k: Seq<char>| #[trigger] r@.contains_key(k) ==> r@[k] == headers@[k],
        decreases es@.len() - i,
    {
        let lk = to_lower(es[i].0.as_str());
        let mut hit = false;
        let mut m: usize = 0;
        while m < lowered.len()
            invariant
                m <= lowered@.len(),
                lowered@.len() == pats.len(),
                forall|q: int| 0 <= q < pats.len() ==> (#[trigger] lowered@[q])@ == lower_of(pats[q]@),
                hit == exists|q: int| 0 <= q < m && contains(lk@, lower_of(#[trigger] pats[q]@)),
            decreases lowered@.len() - m,
        {
            if contains_exec(lk.as_str(), lowered[m].as_str()) {
                hit = true;
            }
            m = m + 1;
        }
        proof {
            crate::table::lemma_index_of(es@, i as int);
        }
        if !hit {
            r.insert(es[i].0.clone(), es[i].1.clone());
        }
        proof {
            assert forall|k: Seq<char>| #[trigger]
                crate::table::in_prefix(es@, i + 1, k) == (crate::table::in_prefix(es@, i as int, k)
                    || k == es@[i as int].0@) by {
                if crate::table::in_prefix(es@, i + 1, k) {
                    let q = choose|q: int| 0 <= q < i + 1 && q < es@.len() && es@[q].0@ == k;
                    if q < i {
                    }
                }
                if k == es@[i as int].0@ {
                    assert(es@[i as int].0@ == k);
                }
            }
        }
        i = i + 1;
    }
    proof {
        assert forall|k: Seq<char>| #[trigger] crate::table::in_prefix(es@, i as int, k) == headers@.contains_key(k) by {
        }
        assert(r@ =~= headers@.restrict(headers@.dom().filter(|k: Seq<char>| !excluded_name(k, pats))));
    }
    r
}

/// The host of a URL, or an empty text when it has none; fails with
/// `InvalidInput` when the URL does not parse.
pub fn extract_domain(url: &str) -> (r: Result<String, TerziError>)
    ensures
        r is Ok <==> url_parses(url@),
        r is Err ==> (r matches Err(TerziError::InvalidInput(_))),
        r is Ok ==> r->Ok_0@ == match url_parts_of(url@)->Some_0.3 {
            Some(h) => h,
            None => Seq::empty(),
        },
{
    match url_parts(url) {
        Some((_, _, _, Some(h))) => Ok(h),
        Some((_, _, _, None)) => Ok(String::new()),
        None => {
            let mut msg = owned("Invalid URL: ");
            msg.append(url);
            Err(TerziError::InvalidInput(msg))
        },
    }
}

/// The serialisation of a parsed URL after dropping its port and emptying a
/// root path, as asked.
pub uninterp spec fn url_rewritten(s: Seq<char>, drop_port: bool, clear_path: bool) -> Seq<char>;

/// Relies on `url::Url::parse`, `Url::set_port(None)`, `Url::set_path("")`
/// and `Url::to_string`: a function of its arguments alone.
#[verifier::external_body]
fn url_rewrite(s: &str, drop_port: bool, clear_path: bool) -> (r: String)
    requires
        url_parses(s@),
    ensures
        r@ == url_rewritten(s@, drop_port, clear_path),
{
    let mut u = url::Url::parse(s).unwrap();
    if drop_port {
        let _ = u.set_port(None);
    }
    if clear_path {
        u.set_path("");
    }
    u.to_string()
}

/// The port is the default of the scheme: 80 for `http`, 443 for `https`.
pub open spec fn default_port(scheme: Seq<char>, port: Option<u16>) -> bool {
    (scheme == "http"@ && port == Some(80u16)) || (scheme == "https"@ && port == Some(443u16))
}

/// A URL without its scheme's default port and without a lone `/` path;
/// fails with `InvalidInput` when it does not parse.
pub fn normalize_url(url: &str) -> (r: Result<String, TerziError>)
    ensures
        r is Ok <==> url_parses(url@),
        r is Err ==> (r matches Err(TerziError::InvalidInput(_))),
        r is Ok ==> r->Ok_0@ == url_rewritten(
            url@,
            default_port(url_parts_of(url@)->Some_0.0, url_parts_of(url@)->Some_0.1),
            url_parts_of(url@)->Some_0.2 == "/"@,
        ),
{
    match url_parts(url) {
        Some((scheme, port, path, _)) => {
            let drop_port = (str_eq(scheme.as_str(), "http") && port == Some(80u16)) || (str_eq(
                scheme.as_str(),
                "https",
            ) && port == Some(443u16));
            let clear_path = str_eq(path.as_str(), "/");
            Ok(url_rewrite(url, drop_port, clear_path))
        },
        None => {
            let mut msg = owned("Invalid URL: ");
            msg.append(url);
            Err(TerziError::InvalidInput(msg))
        },
    }
}

/// Whether two JSON texts hold equal values.
pub uninterp spec fn json_equal(a: Seq<char>, b: Seq<char>) -> bool;

/// Relies on `serde_json::from_str::<Value>` and `Value`'s `==`: a function of
/// the two texts alone.
#[verifier::external_body]
fn json_values_equal(a: &str, b: &str) -> (r: bool)
    requires
        json_parses(a@),
        json_parses(b@),
    ensures
        r == json_equal(a@, b@),
{
    let x: serde_json::Value = serde_json::from_str(a).unwrap();
    let y: serde_json::Value = serde_json::from_str(b).unwrap();
    x == y
}

/// The JSON text re-printed with indentation; fails with `InvalidInput` when
/// it does not parse.
pub fn prettify_json(json: &str) -> (r: Result<String, TerziError>)
    ensures
        r is Ok <==> json_parses(json@),
        r is Err ==> (r matches Err(TerziError::InvalidInput(_))),
        r is Ok ==> Some(r->Ok_0@) == json_printed(json@, true),
{
    match json_print(json, true) {
        Some(t) => Ok(t),
        None => Err(TerziError::InvalidInput(owned("Invalid JSON"))),
    }
}

/// The JSON text re-printed without white space; fails with `InvalidInput`
/// when it does not parse.
pub fn minify_json(json: &str) -> (r: Result<String, TerziError>)
    ensures
        r is Ok <==> json_parses(json@),
        r is Err ==> (r matches Err(TerziError::InvalidInput(_))),
        r is Ok ==> Some(r->Ok_0@) == json_printed(json@, false),
{
    match json_print(json, false) {
        Some(t) => Ok(t),
        None => Err(TerziError::InvalidInput(owned("Invalid JSON"))),
    }
}

/// The report comparing two JSON texts.
pub open spec fn diff_text(old: Seq<char>, new: Seq<char>) -> Seq<char> {
    if json_equal(old, new) {
        "No differences found"@
    } else {
        "Values differ:\nOld: "@ + json_printed(old, true)->Some_0 + "\nNew: "@ + json_printed(
            new,
            true,
        )->Some_0
    }
}

/// Compares two JSON texts; fails with `InvalidInput` when either does not parse.
pub fn diff_json(old: &str, new: &str) -> (r: Result<String, TerziError>)
    ensures
        r is Ok <==> json_parses(old@) && json_parses(new@),
        r is Err ==> (r matches Err(TerziError::InvalidInput(_))),
        r is Ok ==> r->Ok_0@ == diff_text(old@, new@),
{
    let a = match json_print(old, true) {
        Some(t) => t,
        None => {
            return Err(TerziError::InvalidInput(owned("Invalid JSON")));
        },
    };
    let b = match json_print(new, true) {
        Some(t) => t,
        None => {
            return Err(TerziError::InvalidInput(owned("Invalid JSON")));
        },
    };
    if json_values_equal(old, new) {
        Ok(owned("No differences found"))
    } else {
        let mut out = owned("Values differ:\nOld: ");
        out.append(a.as_str());
        out.append("\nNew: ");
        out.append(b.as_str());
        Ok(out)
    }
}

/// A matched secret hidden: all `*` when at most four characters long, else
/// its first two and last two characters around `****`.
pub open spec fn masked(s: Seq<char>) -> Seq<char> {
    if s.len() <= 4 {
        Seq::new(s.len(), |i: int| '*')
    } else {
        s.subrange(0, 2) + "****"@ + s.subrange(s.len() - 2, s.len() as int)
    }
}

/// Hides a matched secret; see `masked`.
pub fn mask_token(s: &str) -> (r: String)
    ensures
        r@ == masked(s@),
{
    let n = s.unicode_len();
    if n <= 4 {
        let mut out = String::new();
        let mut i: usize = 0;
        while i < n
            invariant
                i <= n,
                out@ == Seq::new(i as nat, |k: int| '*'),
            decreases n - i,
        {
            push_char(&mut out, '*');
            i = i + 1;
            assert(out@ =~= Seq::new(i as nat, |k: int| '*'));
        }
        out
    } else {
        let mut out = owned(s.substring_char(0, 2));
        out.append("****");
        out.append(s.substring_char(n - 2, n));
        out
    }
}

/// What the text becomes when each match of a pattern is replaced by
/// `masked` of it; `None` when the pattern is not a valid expression.
pub uninterp spec fn masked_matches(pattern: Seq<char>, text: Seq<char>) -> Option<Seq<char>>;

/// Relies on `regex::Regex::new` and `Regex::replace_all`, whose replacer
/// calls `mask_token` on each whole match: a function of the two texts alone.
#[verifier::external_body]
fn regex_mask(pattern: &str, text: &str) -> (r: Option<String>)
    ensures
        opt_view(r) == masked_matches(pattern@, text@),
{
    let re = regex::Regex::new(pattern).ok()?;
    Some(re.replace_all(text, |caps: &regex::Captures| mask_token(&caps[0])).into_owned())
}

/// The text after masking with each pattern in turn; invalid patterns are skipped.
pub open spec fn masked_all(text: Seq<char>, patterns: Seq<&str>) -> Seq<char>
    decreases patterns.len(),
{
    if patterns.len() == 0 {
        text
    } else {
        let prev = masked_all(text, patterns.drop_last());
        match masked_matches(patterns.last()@, prev) {
            Some(t) => t,
            None => prev,
        }
    }
}

/// Masks every match of each pattern; see `masked_all`.
pub fn mask_sensitive_data(text: &str, patterns: &[&str]) -> (r: String)
    ensures
        r@ == masked_all(text@, patterns@),
{
    let mut result = owned(text);
    let mut i: usize = 0;
    while i < patterns.len()
        invariant
            i <= patterns@.len(),
            result@ == masked_all(text@, patterns@.take(i as int)),
        decreases patterns@.len() - i,
    {
        assert(patterns@.take(i + 1).drop_last() =~= patterns@.take(i as int));
        match regex_mask(patterns[i], result.as_str()) {
            Some(t) => {
                result = t;
            },
            None => {},
        }
        i = i + 1;
    }
    assert(patterns@.take(i as int) =~= patterns@);
    result
}

/// The messages joined by ` → `.
pub open spec fn joined(msgs: Seq<Seq<char>>) -> Seq<char>
    decreases msgs.len(),
{
    if msgs.len() == 0 {
        Seq::empty()
    } else if msgs.len() == 1 {
        msgs[0]
    } else {
        joined(msgs.drop_last()) + " → "@ + msgs.last()
    }
}

/// Joins messages with ` → `.
pub fn join_messages(msgs: &Vec<String>) -> (r: String)
    ensures
        r@ == joined(strings_view(msgs@)),
{
    let ghost m = strings_view(msgs@);
    let mut out = String::new();
    let mut i: usize = 0;
    while i < msgs.len()
        invariant
            m == strings_view(msgs@),
            i <= msgs@.len(),
            out@ == joined(m.take(i as int)),
        decreases msgs@.len() - i,
    {
        assert(m.take(i + 1).drop_last() =~= m.take(i as int));
        if i > 0 {
            out.append(" → ");
        } else {
            assert(out@ =~= Seq::<char>::empty());
        }
        out.append(msgs[i].as_str());
        i = i + 1;
        assert(out@ =~= joined(m.take(i as int)));
    }
    assert(m.take(i as int) =~= m);
    out
}

#[verifier::external_type_specification]
#[verifier::external_body]
pub struct ExAnyhowError(anyhow::Error);

/// Relies on `anyhow::Error::chain` and `ToString`: the message of the error
/// and of each of its sources, outermost first.
#[verifier::external_body]
fn chain_messages(error: &anyhow::Error) -> (r: Vec<String>) {
    error.chain().map(|e| e.to_string()).collect()
}

/// The messages of an error and its sources, joined by ` → `.
pub fn format_error_chain(error: &anyhow::Error) -> (r: String)
    ensures
        exists|msgs: Seq<Seq<char>>| r@ == joined(msgs),
{
    let msgs = chain_messages(error);
    join_messages(&msgs)
}

#[verifier::external_type_specification]
#[verifier::external_body]
pub struct ExInstant(std::time::Instant);

/// Relies on `Instant::now`: the current instant, which differs from call to call.
#[verifier::external_body]
fn instant_now() -> (r: std::time::Instant) {
    std::time::Instant::now()
}

/// Relies on `Instant::elapsed`: the time since `i`, which differs from call to call.
#[verifier::external_body]
fn instant_elapsed(i: &std::time::Instant) -> (r: std::time::Duration) {
    i.elapsed()
}

/// Measures wall-clock time from a start instant.
pub struct Timer {
    start: std::time::Instant,
}

impl Timer {
    /// A timer started now.
    pub fn new() -> (r: Self) {
        Timer { start: instant_now() }
    }

    /// The time since the start.
    pub fn elapsed(&self) -> (r: std::time::Duration) {
        instant_elapsed(&self.start)
    }

    /// The whole milliseconds since the start.
    pub fn elapsed_ms(&self) -> (r: u128) {
        crate::format::millis_of(&self.elapsed())
    }

    /// The time since the start; the timer then starts again.
    pub fn restart(&mut self) -> (r: std::time::Duration) {
        let e = self.elapsed();
        self.start = instant_now();
        e
    }
}

/// Color names for the kinds of message.
#[derive(Debug, Clone, Copy, PartialEq, Eq)]
pub struct ColorScheme {
    pub success: &'static str,
    pub error: &'static str,
    pub warning: &'static str,
    pub info: &'static str,
    pub highlight: &'static str,
    pub dim: &'static str,
}

impl ColorScheme {
    /// Bright colors, for dark terminals.
    pub fn dark() -> (r: Self)
        ensures
            r.success@ == "bright_green"@,
            r.error@ == "bright_red"@,
            r.warning@ == "bright_yellow"@,
            r.info@ == "bright_blue"@,
            r.highlight@ == "bright_cyan"@,
            r.dim@ == "bright_black"@,
    {
        ColorScheme {
            success: "bright_green",
            error: "bright_red",
            warning: "bright_yellow",
            info: "bright_blue",
            highlight: "bright_cyan",
            dim: "bright_black",
        }
    }

    /// Plain colors, for light terminals.
    pub fn light() -> (r: Self)
        ensures
            r.success@ == "green"@,
            r.error@ == "red"@,
            r.warning@ == "yellow"@,
            r.info@ == "blue"@,
            r.highlight@ == "cyan"@,
            r.dim@ == "black"@,
    {
        ColorScheme {
            success: "green",
            error: "red",
            warning: "yellow",
            info: "blue",
            highlight: "cyan",
            dim: "black",
        }
    }
}

/// The first `${name}` placeholder of a text: the position of `${`, the
/// position of the first `}` after it, and the name between; `None` when there
/// is no `${`, or no `}` after it.
pub open spec fn env_placeholder(t: Seq<char>) -> Option<(int, int)> {
    match find_spec(t, "${"@, 0) {
        Some(s) => match find_spec(t, "}"@, s) {
            Some(e) => Some((s, e)),
            None => None,
        },
        None => None,
    }
}

/// Finds the first `${name}` placeholder; see `env_placeholder`.
pub fn next_env_placeholder(text: &str) -> (r: Option<(usize, usize, String)>)
    ensures
        match env_placeholder(text@) {
            Some((s, e)) => r is Some && r->Some_0.0 == s && r->Some_0.1 == e && s + 2 <= e
                && r->Some_0.2@ == text@.subrange(s + 2, e),
            None => r is None,
        },
{
    proof {
        reveal_strlit("${");
        reveal_strlit("}");
    }
    let n = text.unicode_len();
    match find_from(text, "${", 0) {
        Some(s) => match find_from(text, "}", s) {
            Some(e) => {
                proof {
                    assert(text@.subrange(s as int, s + 2) == "${"@);
                    if e < s + 2 {
                        assert(text@.subrange(e as int, e + 1)[0] == '}');
                        assert(text@.subrange(s as int, s + 2)[e - s] != '}');
                    }
                }
                Some((s, e, owned(text.substring_char(s + 2, e))))
            },
            None => None,
        },
        None => None,
    }
}

/// Replaces the characters from `from` up to `to` with `value`.
pub fn splice_chars(text: &str, from: usize, to: usize, value: &str) -> (r: String)
    requires
        from <= to <= text@.len(),
    ensures
        r@ == text@.subrange(0, from as int) + value@ + text@.subrange(to as int, text@.len() as int),
{
    let n = text.unicode_len();
    let mut out = owned(text.substring_char(0, from));
    out.append(value);
    out.append(text.substring_char(to, n));
    out
}

} // verus!
