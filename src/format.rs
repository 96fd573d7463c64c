//! Human-readable renderings of numbers, sizes, durations and names.

use vstd::prelude::*;
use vstd::string::*;
use crate::text::{owned, push_char};

verus! {

/// The decimal digit for `d`.
pub open spec fn digit_char(d: nat) -> char {
    ((48 + d % 10) as u8) as char
}

/// The decimal representation of `n`, without leading zeros.
pub open spec fn decimal(n: nat) -> Seq<char>
    decreases n,
{
    if n < 10 {
        seq![digit_char(n)]
    } else {
        decimal(n / 10).push(digit_char(n % 10))
    }
}

/// Appends the decimal representation of `n`.
pub fn push_decimal(out: &mut String, n: u128)
    ensures
        final(out)@ == old(out)@ + decimal(n as nat),
    decreases n,
{
    if n >= 10 {
        push_decimal(out, n / 10);
    }
    let d = (48 + (n % 10) as u8) as char;
    push_char(out, d);
    assert(final(out)@ =~= old(out)@ + decimal(n as nat));
}

/// The decimal representation of `n` as a string.
pub fn to_decimal(n: u128) -> (r: String)
    ensures
        r@ == decimal(n as nat),
{
    let mut s = String::new();
    push_decimal(&mut s, n);
    assert(s@ =~= decimal(n as nat));
    s
}

/// A duration of `ms` milliseconds: `<ms>ms` below a second, seconds with two
/// decimals (rounded half up) below a minute, else `<m>m <s>s`.
pub open spec fn duration_text(ms: nat) -> Seq<char> {
    if ms < 1000 {
        decimal(ms) + "ms"@
    } else if ms < 60000 {
        let h = (ms + 5) / 10;
        decimal(h / 100) + "."@ + seq![digit_char((h % 100) / 10), digit_char(h % 10)] + "s"@
    } else {
        decimal(ms / 60000) + "m "@ + decimal((ms % 60000) / 1000) + "s"@
    }
}

/// Formats a duration given in milliseconds; see `duration_text`.
pub fn format_millis(ms: u128) -> (r: String)
    ensures
        r@ == duration_text(ms as nat),
{
    let mut out = String::new();
    if ms < 1000 {
        push_decimal(&mut out, ms);
        out.append("ms");
    } else if ms < 60000 {
        let h = (ms + 5) / 10;
        push_decimal(&mut out, h / 100);
        out.append(".");
        push_char(&mut out, (48 + ((h % 100) / 10) as u8) as char);
        push_char(&mut out, (48 + (h % 10) as u8) as char);
        out.append("s");
    } else {
        push_decimal(&mut out, ms / 60000);
        out.append("m ");
        push_decimal(&mut out, (ms % 60000) / 1000);
        out.append("s");
    }
    assert(out@ =~= duration_text(ms as nat));
    out
}

/// Relies on `Duration::as_millis`: the whole milliseconds of a duration.
#[verifier::external_body]
pub(crate) fn millis_of(d: &std::time::Duration) -> (r: u128) {
    d.as_millis()
}

/// Formats a duration; see `duration_text`.
pub fn format_duration(duration: std::time::Duration) -> (r: String)
    ensures
        exists|ms: nat| r@ == duration_text(ms),
{
    format_millis(millis_of(&duration))
}

/// `1024` to the power `k`.
pub open spec fn kib_pow(k: nat) -> nat
    decreases k,
{
    if k == 0 {
        1
    } else {
        1024 * kib_pow((k - 1) as nat)
    }
}

/// The unit index for a size: the largest `k <= 4` with `1024^k <= bytes`,
/// or 0.
pub open spec fn unit_index(bytes: nat) -> nat {
    if bytes >= kib_pow(4) {
        4
    } else if bytes >= kib_pow(3) {
        3
    } else if bytes >= kib_pow(2) {
        2
    } else if bytes >= kib_pow(1) {
        1
    } else {
        0
    }
}

/// The name of unit `k`.
pub open spec fn unit_name(k: nat) -> Seq<char> {
    if k == 0 {
        "B"@
    } else if k == 1 {
        "KB"@
    } else if k == 2 {
        "MB"@
    } else if k == 3 {
        "GB"@
    } else {
        "TB"@
    }
}

/// `n / d` rounded to the nearest integer, ties to the even one.
pub open spec fn div_round_even(n: nat, d: nat) -> nat
    recommends
        d > 0,
{
    let q = n / d;
    let rem = n % d;
    if 2 * rem > d || (2 * rem == d && q % 2 == 1) {
        q + 1
    } else {
        q
    }
}

/// A size: `<n> B` below 1024, else one decimal in the largest unit that fits.
pub open spec fn bytes_text(bytes: nat) -> Seq<char> {
    let k = unit_index(bytes);
    if k == 0 {
        decimal(bytes) + " B"@
    } else {
        let t = div_round_even(bytes * 10, kib_pow(k));
        decimal(t / 10) + "."@ + seq![digit_char(t % 10)] + " "@ + unit_name(k)
    }
}

/// Formats a byte count; see `bytes_text`.
pub fn format_bytes(bytes: usize) -> (r: String)
    ensures
        r@ == bytes_text(bytes as nat),
{
    let b = bytes as u128;
    let mut out = String::new();
    proof {
        reveal_with_fuel(kib_pow, 5);
        reveal_strlit("B");
        reveal_strlit("KB");
        reveal_strlit("MB");
        reveal_strlit("GB");
        reveal_strlit("TB");
    }
    assert(kib_pow(1) == 1024 && kib_pow(2) == 1048576 && kib_pow(3) == 1073741824 && kib_pow(4)
        == 1099511627776);
    let (k, den, unit): (u128, u128, &str) = if b >= 1099511627776 {
        (4, 1099511627776, "TB")
    } else if b >= 1073741824 {
        (3, 1073741824, "GB")
    } else if b >= 1048576 {
        (2, 1048576, "MB")
    } else if b >= 1024 {
        (1, 1024, "KB")
    } else {
        (0, 1, "B")
    };
    if k == 0 {
        push_decimal(&mut out, b);
        out.append(" B");
    } else {
        let n = b * 10;
        let q = n / den;
        let rem = n % den;
        let t = if 2 * rem > den || (2 * rem == den && q % 2 == 1) {
            q + 1
        } else {
            q
        };
        push_decimal(&mut out, t / 10);
        out.append(".");
        push_char(&mut out, (48 + (t % 10) as u8) as char);
        out.append(" ");
        out.append(unit);
    }
    assert(out@ =~= bytes_text(bytes as nat));
    out
}

/// How long ago, from the seconds elapsed; `None` means the instant is ahead.
pub open spec fn ago_text(elapsed: Option<u64>) -> Seq<char> {
    match elapsed {
        None => "in the future"@,
        Some(s) => if s < 60 {
            decimal(s as nat) + "s ago"@
        } else if s < 3600 {
            decimal((s / 60) as nat) + "m ago"@
        } else if s < 86400 {
            decimal((s / 3600) as nat) + "h ago"@
        } else {
            decimal((s / 86400) as nat) + "d ago"@
        },
    }
}

/// Formats an elapsed time; see `ago_text`.
pub fn time_ago_from(elapsed: Option<u64>) -> (r: String)
    ensures
        r@ == ago_text(elapsed),
{
    let mut out = String::new();
    match elapsed {
        None => {
            out.append("in the future");
        },
        Some(s) => {
            if s < 60 {
                push_decimal(&mut out, s as u128);
                out.append("s ago");
            } else if s < 3600 {
                push_decimal(&mut out, (s / 60) as u128);
                out.append("m ago");
            } else if s < 86400 {
                push_decimal(&mut out, (s / 3600) as u128);
                out.append("h ago");
            } else {
                push_decimal(&mut out, (s / 86400) as u128);
                out.append("d ago");
            }
        },
    }
    assert(out@ =~= ago_text(elapsed));
    out
}

#[verifier::external_type_specification]
#[verifier::external_body]
pub struct ExSystemTime(std::time::SystemTime);

/// Relies on `SystemTime::now`: the current time, which differs from call to call.
#[verifier::external_body]
fn system_now() -> (r: std::time::SystemTime) {
    std::time::SystemTime::now()
}

/// Relies on `SystemTime::duration_since`: the whole seconds from `earlier`
/// to `later`, or `None` when `earlier` is the later one.
#[verifier::external_body]
fn seconds_between(later: std::time::SystemTime, earlier: std::time::SystemTime) -> (r: Option<u64>) {
    later.duration_since(earlier).ok().map(|d| d.as_secs())
}

/// How long ago `timestamp` was; see `ago_text`.
pub fn time_ago(timestamp: std::time::SystemTime) -> (r: String)
    ensures
        exists|e: Option<u64>| r@ == ago_text(e),
{
    time_ago_from(seconds_between(system_now(), timestamp))
}

/// The number of bytes that UTF-8 takes for `c`.
pub open spec fn utf8_width(c: char) -> nat {
    if (c as u32) < 0x80 {
        1
    } else if (c as u32) < 0x800 {
        2
    } else if (c as u32) < 0x10000 {
        3
    } else {
        4
    }
}

/// The length of a text in UTF-8, in bytes.
pub open spec fn utf8_len(s: Seq<char>) -> nat
    decreases s.len(),
{
    if s.len() == 0 {
        0
    } else {
        utf8_len(s.drop_last()) + utf8_width(s.last())
    }
}

/// Byte offset `b` falls between two characters of `s` (or at an end).
pub open spec fn on_boundary(s: Seq<char>, b: nat) -> bool {
    exists|k: int| 0 <= k <= s.len() && utf8_len(s.take(k)) == b
}

/// Where a long text is cut: `max - 3` bytes, or none when `max < 3`.
pub open spec fn cut_bytes(max: nat) -> nat {
    if max >= 3 {
        (max - 3) as nat
    } else {
        0
    }
}

/// `s` itself when its UTF-8 form is at most `max` bytes long; else its
/// first `cut_bytes(max)` bytes followed by `...`.
pub open spec fn truncated(s: Seq<char>, max: nat) -> Seq<char> {
    if utf8_len(s) <= max {
        s
    } else {
        s.take(choose|k: int| 0 <= k <= s.len() && utf8_len(s.take(k)) == cut_bytes(max)) + "..."@
    }
}

/// Longer prefixes take more bytes.
proof fn lemma_utf8_prefix_grows(s: Seq<char>, j: int, k: int)
    requires
        0 <= j < k <= s.len(),
    ensures
        utf8_len(s.take(j)) < utf8_len(s.take(k)),
    decreases k - j,
{
    assert(s.take(k).drop_last() =~= s.take(k - 1));
    if j < k - 1 {
        lemma_utf8_prefix_grows(s, j, k - 1);
    }
}

/// Only one prefix has a given byte length.
proof fn lemma_utf8_prefix_unique(s: Seq<char>, j: int, k: int)
    requires
        0 <= j <= s.len(),
        0 <= k <= s.len(),
        utf8_len(s.take(j)) == utf8_len(s.take(k)),
    ensures
        j == k,
{
    if j < k {
        lemma_utf8_prefix_grows(s, j, k);
    } else if k < j {
        lemma_utf8_prefix_grows(s, k, j);
    }
}

/// The UTF-8 width of a character, computed.
fn char_width(c: char) -> (r: u128)
    ensures
        r == utf8_width(c),
{
    let u = c as u32;
    if u < 0x80 {
        1
    } else if u < 0x800 {
        2
    } else if u < 0x10000 {
        3
    } else {
        4
    }
}

/// Shortens a string to at most `max_length` bytes of UTF-8, cutting at byte
/// `max_length - 3` and appending `...`; see `truncated`. The cut must fall
/// between characters.
pub fn truncate_string(s: &str, max_length: usize) -> (r: String)
    requires
        utf8_len(s@) <= max_length || on_boundary(s@, cut_bytes(max_length as nat)),
    ensures
        r@ == truncated(s@, max_length as nat),
{
    let n = s.unicode_len();
    let mut total: u128 = 0;
    let mut i: usize = 0;
    while i < n
        invariant
            n == s@.len(),
            i <= n,
            total == utf8_len(s@.take(i as int)),
            total <= 4 * i,
        decreases n - i,
    {
        assert(s@.take(i + 1).drop_last() =~= s@.take(i as int));
        total = total + char_width(s.get_char(i));
        i = i + 1;
    }
    assert(s@.take(n as int) =~= s@);
    if total <= max_length as u128 {
        return owned(s);
    }
    let cut: u128 = if max_length >= 3 { (max_length - 3) as u128 } else { 0 };
    let ghost k0 = choose|k: int| 0 <= k <= s@.len() && utf8_len(s@.take(k)) == cut_bytes(
        max_length as nat,
    );
    let mut acc: u128 = 0;
    let mut k: usize = 0;
    assert(s@.take(0) =~= Seq::<char>::empty());
    while acc < cut
        invariant
            n == s@.len(),
            k <= n,
            acc == utf8_len(s@.take(k as int)),
            acc <= 4 * k,
            cut == cut_bytes(max_length as nat),
            0 <= k0 <= n,
            utf8_len(s@.take(k0)) == cut,
            k <= k0,
        decreases k0 - k,
    {
        proof {
            assert(k < k0);
            lemma_utf8_prefix_grows(s@, k as int, k0);
        }
        assert(s@.take(k + 1).drop_last() =~= s@.take(k as int));
        acc = acc + char_width(s.get_char(k));
        k = k + 1;
    }
    proof {
        if k < k0 {
            lemma_utf8_prefix_grows(s@, k as int, k0);
        }
        lemma_utf8_prefix_unique(s@, k as int, k0);
    }
    let mut out = owned(s.substring_char(0, k));
    out.append("...");
    assert(out@ =~= s@.take(k as int) + "..."@);
    out
}

/// Whether a character may not stand in a file name.
pub open spec fn is_path_special(c: char) -> bool {
    c == '/' || c == '\\' || c == ':' || c == '*' || c == '?' || c == '"' || c == '<' || c == '>'
        || c == '|'
}

/// Replaces each character that may not stand in a file name by `_`.
pub fn sanitize_filename(name: &str) -> (r: String)
    ensures
        r@.len() == name@.len(),
        forall|i: int|
            0 <= i < name@.len() ==> r@[i] == if is_path_special(name@[i]) {
                '_'
            } else {
                name@[i]
            },
{
    let n = name.unicode_len();
    let mut out = String::new();
    let mut i: usize = 0;
    while i < n
        invariant
            n == name@.len(),
            i <= n,
            out@.len() == i,
            forall|j: int|
                0 <= j < i ==> out@[j] == if is_path_special(name@[j]) {
                    '_'
                } else {
                    name@[j]
                },
        decreases n - i,
    {
        let c = name.get_char(i);
        let d = if c == '/' || c == '\\' || c == ':' || c == '*' || c == '?' || c == '"' || c
            == '<' || c == '>' || c == '|' {
            '_'
        } else {
            c
        };
        push_char(&mut out, d);
        i = i + 1;
    }
    out
}

} // verus!
