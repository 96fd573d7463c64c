//! The application's configuration: a typed schema with a registry of keys
//! that can be read and set as text, each with its own validation.

use vstd::prelude::*;
use vstd::string::*;
use crate::error::TerziError;
use crate::format::{decimal, to_decimal};
use crate::request::{copy_opt, opt_view};
use crate::table::{Duplicate, Table};
use crate::text::{owned, str_eq};
use crate::validate::{is_valid_url, url_parses};

verus! {

/// General behaviour.
#[derive(Debug, Clone)]
pub struct GeneralConfig {
    pub default_timeout: u64,
    pub follow_redirects: bool,
    pub save_history: bool,
    pub max_history_entries: usize,
    pub auto_save_requests: bool,
    pub check_updates: bool,
}

/// How responses are shown.
#[derive(Debug, Clone)]
pub struct OutputConfig {
    pub default_format: String,
    pub pretty_print: bool,
    pub show_headers: bool,
    pub show_timing: bool,
    pub show_size: bool,
    pub syntax_highlighting: bool,
    pub color_scheme: String,
    pub max_body_length: Option<usize>,
}

/// How requests are sent.
#[derive(Debug, Clone)]
pub struct NetworkConfig {
    pub user_agent: String,
    pub proxy_url: Option<String>,
    pub verify_ssl: bool,
    pub connection_timeout: u64,
    pub read_timeout: u64,
    pub max_redirects: u8,
    pub keep_alive: bool,
    pub compression: bool,
}

/// A stored credential.
#[derive(Debug, Clone)]
pub struct StoredToken {
    pub token_type: String,
    pub value: String,
    /// Milliseconds since the Unix epoch.
    pub expires_at: Option<i64>,
    pub refresh_token: Option<String>,
    pub scopes: Vec<String>,
}

/// What a stored credential holds, as plain values.
pub struct TokenView {
    pub token_type: Seq<char>,
    pub value: Seq<char>,
    pub expires_at: Option<i64>,
    pub refresh_token: Option<Seq<char>>,
    pub scopes: Seq<Seq<char>>,
}

impl View for StoredToken {
    type V = TokenView;

    open spec fn view(&self) -> TokenView {
        TokenView {
            token_type: self.token_type@,
            value: self.value@,
            expires_at: self.expires_at,
            refresh_token: opt_view(self.refresh_token),
            scopes: crate::request::strings_view(self.scopes@),
        }
    }
}

impl Duplicate for StoredToken {
    open spec fn dup_ok(&self) -> bool {
        true
    }

    fn duplicate(&self) -> (r: Self) {
        StoredToken {
            token_type: self.token_type.clone(),
            value: self.value.clone(),
            expires_at: self.expires_at,
            refresh_token: copy_opt(&self.refresh_token),
            scopes: crate::request::copy_strings(&self.scopes),
        }
    }
}

/// Authentication defaults and stored credentials.
#[derive(Debug, Clone)]
pub struct AuthConfig {
    pub default_auth_type: Option<String>,
    pub stored_tokens: Table<StoredToken>,
    pub auto_refresh_tokens: bool,
}

/// Interface preferences.
#[derive(Debug, Clone)]
pub struct UiConfig {
    pub theme: String,
    pub editor: String,
    pub confirm_dangerous_operations: bool,
    pub show_welcome_message: bool,
    pub auto_complete: bool,
    pub fuzzy_search: bool,
    pub table_style: String,
}

/// The whole configuration.
#[derive(Debug, Clone)]
pub struct Config {
    pub general: GeneralConfig,
    pub output: OutputConfig,
    pub network: NetworkConfig,
    pub auth: AuthConfig,
    pub ui: UiConfig,
}

/// The text of a flag.
pub open spec fn bool_text(b: bool) -> Seq<char> {
    if b {
        "true"@
    } else {
        "false"@
    }
}

/// The text of a flag.
pub fn bool_str(b: bool) -> (r: &'static str)
    ensures
        r@ == bool_text(b),
{
    if b {
        "true"
    } else {
        "false"
    }
}

/// A flag written as `true` or `false`.
pub open spec fn bool_parse(s: Seq<char>) -> Option<bool> {
    if s == "true"@ {
        Some(true)
    } else if s == "false"@ {
        Some(false)
    } else {
        None
    }
}

/// Reads a flag; see `bool_parse`.
pub fn parse_bool(s: &str) -> (r: Option<bool>)
    ensures
        r == bool_parse(s@),
{
    if str_eq(s, "true") {
        Some(true)
    } else if str_eq(s, "false") {
        Some(false)
    } else {
        None
    }
}

/// An ASCII decimal digit.
pub open spec fn is_digit(c: char) -> bool {
    '0' <= c <= '9'
}

/// The value of a string of decimal digits.
pub open spec fn digits_value(s: Seq<char>) -> nat
    decreases s.len(),
{
    if s.len() == 0 {
        0
    } else {
        digits_value(s.drop_last()) * 10 + ((s.last() as u32 - 48) as nat)
    }
}

/// The text after an optional leading `+`.
pub open spec fn unsigned_part(s: Seq<char>) -> Seq<char> {
    if s.len() > 0 && s[0] == '+' {
        s.skip(1)
    } else {
        s
    }
}

/// At least one character, all decimal digits.
pub open spec fn all_digits(d: Seq<char>) -> bool {
    d.len() > 0 && forall|i: int| 0 <= i < d.len() ==> is_digit(#[trigger] d[i])
}

/// A whole number written as an optional `+` and at least one digit.
pub open spec fn nat_parse(s: Seq<char>) -> Option<nat> {
    if all_digits(unsigned_part(s)) {
        Some(digits_value(unsigned_part(s)))
    } else {
        None
    }
}

/// Appending digits never makes the value smaller.
proof fn lemma_digits_grow(d: Seq<char>, i: int)
    requires
        0 <= i <= d.len(),
        forall|k: int| 0 <= k < d.len() ==> is_digit(#[trigger] d[k]),
    ensures
        digits_value(d.take(i)) <= digits_value(d),
    decreases d.len() - i,
{
    if i < d.len() {
        lemma_digits_grow(d, i + 1);
        assert(d.take(i + 1).drop_last() =~= d.take(i));
    } else {
        assert(d.take(i) =~= d);
    }
}

/// Reads a whole number no larger than `max`; see `nat_parse`.
pub fn parse_bounded(s: &str, max: u64) -> (r: Option<u64>)
    ensures
        match nat_parse(s@) {
            Some(x) => if x <= max {
                r == Some(x as u64)
            } else {
                r is None
            },
            None => r is None,
        },
{
    let n = s.unicode_len();
    let start: usize = if n > 0 && s.get_char(0) == '+' {
        1
    } else {
        0
    };
    let ghost d = unsigned_part(s@);
    assert(d.len() == n - start);
    assert(forall|k: int| 0 <= k < d.len() ==> d[k] == s@[k + start]);
    if start >= n {
        return None;
    }
    let mut acc: u128 = 0;
    let mut i: usize = start;
    while i < n
        invariant
            n == s@.len(),
            start <= i <= n,
            d == unsigned_part(s@),
            d.len() == n - start,
            forall|k: int| 0 <= k < d.len() ==> d[k] == s@[k + start],
            forall|k: int| 0 <= k < i - start ==> is_digit(#[trigger] d[k]),
            acc == digits_value(d.take(i - start)),
            acc <= max,
        decreases n - i,
    {
        let c = s.get_char(i);
        if !('0' <= c && c <= '9') {
            assert(!is_digit(d[i - start]));
            assert(!all_digits(d));
            return None;
        }
        assert(d.take(i - start + 1).drop_last() =~= d.take(i - start));
        let next = acc * 10 + ((c as u32 - 48) as u128);
        if next > max as u128 {
            proof {
                let j = i - start + 1;
                assert(digits_value(d.take(j)) == next);
                if all_digits(d) {
                    lemma_digits_grow(d, j);
                }
            }
            return None;
        }
        acc = next;
        i = i + 1;
    }
    assert(d.take(n - start) =~= d);
    Some(acc as u64)
}

/// The values that a fresh configuration holds, with `editor` as the editor.
pub open spec fn is_default(c: Config, editor: Seq<char>) -> bool {
    &&& c.general.default_timeout == 30
    &&& c.general.follow_redirects
    &&& c.general.save_history
    &&& c.general.max_history_entries == 1000
    &&& !c.general.auto_save_requests
    &&& c.general.check_updates
    &&& c.output.default_format@ == "auto"@
    &&& c.output.pretty_print
    &&& !c.output.show_headers
    &&& c.output.show_timing
    &&& c.output.show_size
    &&& c.output.syntax_highlighting
    &&& c.output.color_scheme@ == "dark"@
    &&& c.output.max_body_length == Some(10000usize)
    &&& c.network.user_agent@ == "terzi/0.1.0"@
    &&& c.network.proxy_url is None
    &&& c.network.verify_ssl
    &&& c.network.connection_timeout == 10
    &&& c.network.read_timeout == 30
    &&& c.network.max_redirects == 10
    &&& c.network.keep_alive
    &&& c.network.compression
    &&& c.auth.default_auth_type is None
    &&& c.auth.stored_tokens.wf()
    &&& c.auth.stored_tokens@ == Map::<Seq<char>, TokenView>::empty()
    &&& c.auth.auto_refresh_tokens
    &&& c.ui.theme@ == "default"@
    &&& c.ui.editor@ == editor
    &&& c.ui.confirm_dangerous_operations
    &&& c.ui.show_welcome_message
    &&& c.ui.auto_complete
    &&& c.ui.fuzzy_search
    &&& c.ui.table_style@ == "rounded"@
}

/// The limits that `validate` checks.
pub open spec fn config_ok(c: Config) -> bool {
    &&& 1 <= c.general.default_timeout <= 3600
    &&& 1 <= c.network.connection_timeout <= 300
    &&& 1 <= c.network.read_timeout <= 3600
    &&& c.network.max_redirects <= 50
    &&& 1 <= c.general.max_history_entries <= 10000
    &&& (c.network.proxy_url is Some ==> url_parses(c.network.proxy_url->Some_0@))
}

/// The text that `get_value` gives for a key, or `None` for an unknown key or an unset value.
pub open spec fn value_text(c: Config, key: Seq<char>) -> Option<Seq<char>> {
    if key == "general.default_timeout"@ {
        Some(decimal(c.general.default_timeout as nat))
    } else if key == "general.follow_redirects"@ {
        Some(bool_text(c.general.follow_redirects))
    } else if key == "general.save_history"@ {
        Some(bool_text(c.general.save_history))
    } else if key == "general.max_history_entries"@ {
        Some(decimal(c.general.max_history_entries as nat))
    } else if key == "general.auto_save_requests"@ {
        Some(bool_text(c.general.auto_save_requests))
    } else if key == "general.check_updates"@ {
        Some(bool_text(c.general.check_updates))
    } else if key == "output.default_format"@ {
        Some(c.output.default_format@)
    } else if key == "output.pretty_print"@ {
        Some(bool_text(c.output.pretty_print))
    } else if key == "output.show_headers"@ {
        Some(bool_text(c.output.show_headers))
    } else if key == "output.show_timing"@ {
        Some(bool_text(c.output.show_timing))
    } else if key == "output.show_size"@ {
        Some(bool_text(c.output.show_size))
    } else if key == "output.syntax_highlighting"@ {
        Some(bool_text(c.output.syntax_highlighting))
    } else if key == "output.color_scheme"@ {
        Some(c.output.color_scheme@)
    } else if key == "output.max_body_length"@ {
        match c.output.max_body_length { Some(n) => Some(decimal(n as nat)), None => None }
    } else if key == "network.user_agent"@ {
        Some(c.network.user_agent@)
    } else if key == "network.proxy_url"@ {
        opt_view(c.network.proxy_url)
    } else if key == "network.verify_ssl"@ {
        Some(bool_text(c.network.verify_ssl))
    } else if key == "network.connection_timeout"@ {
        Some(decimal(c.network.connection_timeout as nat))
    } else if key == "network.read_timeout"@ {
        Some(decimal(c.network.read_timeout as nat))
    } else if key == "network.max_redirects"@ {
        Some(decimal(c.network.max_redirects as nat))
    } else if key == "network.keep_alive"@ {
        Some(bool_text(c.network.keep_alive))
    } else if key == "network.compression"@ {
        Some(bool_text(c.network.compression))
    } else if key == "ui.theme"@ {
        Some(c.ui.theme@)
    } else if key == "ui.editor"@ {
        Some(c.ui.editor@)
    } else if key == "ui.confirm_dangerous_operations"@ {
        Some(bool_text(c.ui.confirm_dangerous_operations))
    } else if key == "ui.show_welcome_message"@ {
        Some(bool_text(c.ui.show_welcome_message))
    } else if key == "ui.auto_complete"@ {
        Some(bool_text(c.ui.auto_complete))
    } else if key == "ui.fuzzy_search"@ {
        Some(bool_text(c.ui.fuzzy_search))
    } else if key == "ui.table_style"@ {
        Some(c.ui.table_style@)
    } else {
        None
    }
}

/// The configuration keys, in their listed order.
pub open spec fn config_keys() -> Seq<Seq<char>> {
    seq!["general.default_timeout"@, "general.follow_redirects"@, "general.save_history"@, "general.max_history_entries"@, "general.auto_save_requests"@, "general.check_updates"@, "output.default_format"@, "output.pretty_print"@, "output.show_headers"@, "output.show_timing"@, "output.show_size"@, "output.syntax_highlighting"@, "output.color_scheme"@, "output.max_body_length"@, "network.user_agent"@, "network.proxy_url"@, "network.verify_ssl"@, "network.connection_timeout"@, "network.read_timeout"@, "network.max_redirects"@, "network.keep_alive"@, "network.compression"@, "ui.theme"@, "ui.editor"@, "ui.confirm_dangerous_operations"@, "ui.show_welcome_message"@, "ui.auto_complete"@, "ui.fuzzy_search"@, "ui.table_style"@]
}

/// What `set_value` does: `o` is the configuration before, `n` after, `r`
/// the result. Each key validates its value; a rejected value or an
/// unknown key changes nothing.
pub open spec fn set_effect(o: Config, n: Config, key: Seq<char>, v: Seq<char>, r: Result<(), TerziError>) -> bool {
    if key == "general.default_timeout"@ {
        match nat_parse(v) {
            Some(x) => if x <= 18446744073709551615 {
                r is Ok && n.general.default_timeout == x as u64 && n.general == (GeneralConfig { default_timeout: n.general.default_timeout, ..o.general }) && n == (Config { general: n.general, ..o })
            } else {
                (r matches Err(TerziError::InvalidInput(_))) && n == o
            },
            None => (r matches Err(TerziError::InvalidInput(_))) && n == o,
        }
    } else if key == "general.follow_redirects"@ {
        match bool_parse(v) {
            Some(b) => r is Ok && n.general.follow_redirects == b && n.general == (GeneralConfig { follow_redirects: n.general.follow_redirects, ..o.general }) && n == (Config { general: n.general, ..o }),
            None => (r matches Err(TerziError::InvalidInput(_))) && n == o,
        }
    } else if key == "general.save_history"@ {
        match bool_parse(v) {
            Some(b) => r is Ok && n.general.save_history == b && n.general == (GeneralConfig { save_history: n.general.save_history, ..o.general }) && n == (Config { general: n.general, ..o }),
            None => (r matches Err(TerziError::InvalidInput(_))) && n == o,
        }
    } else if key == "general.max_history_entries"@ {
        match nat_parse(v) {
            Some(x) => if x <= (usize::MAX as nat) {
                r is Ok && n.general.max_history_entries == x as usize && n.general == (GeneralConfig { max_history_entries: n.general.max_history_entries, ..o.general }) && n == (Config { general: n.general, ..o })
            } else {
                (r matches Err(TerziError::InvalidInput(_))) && n == o
            },
            None => (r matches Err(TerziError::InvalidInput(_))) && n == o,
        }
    } else if key == "general.auto_save_requests"@ {
        match bool_parse(v) {
            Some(b) => r is Ok && n.general.auto_save_requests == b && n.general == (GeneralConfig { auto_save_requests: n.general.auto_save_requests, ..o.general }) && n == (Config { general: n.general, ..o }),
            None => (r matches Err(TerziError::InvalidInput(_))) && n == o,
        }
    } else if key == "general.check_updates"@ {
        match bool_parse(v) {
            Some(b) => r is Ok && n.general.check_updates == b && n.general == (GeneralConfig { check_updates: n.general.check_updates, ..o.general }) && n == (Config { general: n.general, ..o }),
            None => (r matches Err(TerziError::InvalidInput(_))) && n == o,
        }
    } else if key == "output.default_format"@ {
        if v == "auto"@ || v == "json"@ || v == "yaml"@ || v == "table"@ || v == "raw"@ {
            r is Ok && n.output.default_format@ == v && n.output == (OutputConfig { default_format: n.output.default_format, ..o.output }) && n == (Config { output: n.output, ..o })
        } else {
            (r matches Err(TerziError::InvalidInput(_))) && n == o
        }
    } else if key == "output.pretty_print"@ {
        match bool_parse(v) {
            Some(b) => r is Ok && n.output.pretty_print == b && n.output == (OutputConfig { pretty_print: n.output.pretty_print, ..o.output }) && n == (Config { output: n.output, ..o }),
            None => (r matches Err(TerziError::InvalidInput(_))) && n == o,
        }
    } else if key == "output.show_headers"@ {
        match bool_parse(v) {
            Some(b) => r is Ok && n.output.show_headers == b && n.output == (OutputConfig { show_headers: n.output.show_headers, ..o.output }) && n == (Config { output: n.output, ..o }),
            None => (r matches Err(TerziError::InvalidInput(_))) && n == o,
        }
    } else if key == "output.show_timing"@ {
        match bool_parse(v) {
            Some(b) => r is Ok && n.output.show_timing == b && n.output == (OutputConfig { show_timing: n.output.show_timing, ..o.output }) && n == (Config { output: n.output, ..o }),
            None => (r matches Err(TerziError::InvalidInput(_))) && n == o,
        }
    } else if key == "output.show_size"@ {
        match bool_parse(v) {
            Some(b) => r is Ok && n.output.show_size == b && n.output == (OutputConfig { show_size: n.output.show_size, ..o.output }) && n == (Config { output: n.output, ..o }),
            None => (r matches Err(TerziError::InvalidInput(_))) && n == o,
        }
    } else if key == "output.syntax_highlighting"@ {
        match bool_parse(v) {
            Some(b) => r is Ok && n.output.syntax_highlighting == b && n.output == (OutputConfig { syntax_highlighting: n.output.syntax_highlighting, ..o.output }) && n == (Config { output: n.output, ..o }),
            None => (r matches Err(TerziError::InvalidInput(_))) && n == o,
        }
    } else if key == "output.color_scheme"@ {
        if v == "dark"@ || v == "light"@ || v == "auto"@ {
            r is Ok && n.output.color_scheme@ == v && n.output == (OutputConfig { color_scheme: n.output.color_scheme, ..o.output }) && n == (Config { output: n.output, ..o })
        } else {
            (r matches Err(TerziError::InvalidInput(_))) && n == o
        }
    } else if key == "output.max_body_length"@ {
        if v == "none"@ || v.len() == 0 {
            r is Ok && n.output.max_body_length is None && n.output == (OutputConfig { max_body_length: n.output.max_body_length, ..o.output }) && n == (Config { output: n.output, ..o })
        } else {
            match nat_parse(v) {
                Some(x) => if x <= (usize::MAX as nat) {
                    r is Ok && n.output.max_body_length == Some(x as usize) && n.output == (OutputConfig { max_body_length: n.output.max_body_length, ..o.output }) && n == (Config { output: n.output, ..o })
                } else {
                    (r matches Err(TerziError::InvalidInput(_))) && n == o
                },
                None => (r matches Err(TerziError::InvalidInput(_))) && n == o,
            }
        }
    } else if key == "network.user_agent"@ {
        r is Ok && n.network.user_agent@ == v && n.network == (NetworkConfig { user_agent: n.network.user_agent, ..o.network }) && n == (Config { network: n.network, ..o })
    } else if key == "network.proxy_url"@ {
        if v == "none"@ || v.len() == 0 {
            r is Ok && n.network.proxy_url is None && n.network == (NetworkConfig { proxy_url: n.network.proxy_url, ..o.network }) && n == (Config { network: n.network, ..o })
        } else if url_parses(v) {
            r is Ok && opt_view(n.network.proxy_url) == Some(v) && n.network == (NetworkConfig { proxy_url: n.network.proxy_url, ..o.network }) && n == (Config { network: n.network, ..o })
        } else {
            (r matches Err(TerziError::InvalidInput(_))) && n == o
        }
    } else if key == "network.verify_ssl"@ {
        match bool_parse(v) {
            Some(b) => r is Ok && n.network.verify_ssl == b && n.network == (NetworkConfig { verify_ssl: n.network.verify_ssl, ..o.network }) && n == (Config { network: n.network, ..o }),
            None => (r matches Err(TerziError::InvalidInput(_))) && n == o,
        }
    } else if key == "network.connection_timeout"@ {
        match nat_parse(v) {
            Some(x) => if x <= 18446744073709551615 {
                r is Ok && n.network.connection_timeout == x as u64 && n.network == (NetworkConfig { connection_timeout: n.network.connection_timeout, ..o.network }) && n == (Config { network: n.network, ..o })
            } else {
                (r matches Err(TerziError::InvalidInput(_))) && n == o
            },
            None => (r matches Err(TerziError::InvalidInput(_))) && n == o,
        }
    } else if key == "network.read_timeout"@ {
        match nat_parse(v) {
            Some(x) => if x <= 18446744073709551615 {
                r is Ok && n.network.read_timeout == x as u64 && n.network == (NetworkConfig { read_timeout: n.network.read_timeout, ..o.network }) && n == (Config { network: n.network, ..o })
            } else {
                (r matches Err(TerziError::InvalidInput(_))) && n == o
            },
            None => (r matches Err(TerziError::InvalidInput(_))) && n == o,
        }
    } else if key == "network.max_redirects"@ {
        match nat_parse(v) {
            Some(x) => if x <= 255 {
                r is Ok && n.network.max_redirects == x as u8 && n.network == (NetworkConfig { max_redirects: n.network.max_redirects, ..o.network }) && n == (Config { network: n.network, ..o })
            } else {
                (r matches Err(TerziError::InvalidInput(_))) && n == o
            },
            None => (r matches Err(TerziError::InvalidInput(_))) && n == o,
        }
    } else if key == "network.keep_alive"@ {
        match bool_parse(v) {
            Some(b) => r is Ok && n.network.keep_alive == b && n.network == (NetworkConfig { keep_alive: n.network.keep_alive, ..o.network }) && n == (Config { network: n.network, ..o }),
            None => (r matches Err(TerziError::InvalidInput(_))) && n == o,
        }
    } else if key == "network.compression"@ {
        match bool_parse(v) {
            Some(b) => r is Ok && n.network.compression == b && n.network == (NetworkConfig { compression: n.network.compression, ..o.network }) && n == (Config { network: n.network, ..o }),
            None => (r matches Err(TerziError::InvalidInput(_))) && n == o,
        }
    } else if key == "ui.theme"@ {
        if v == "default"@ || v == "dark"@ || v == "light"@ || v == "minimal"@ {
            r is Ok && n.ui.theme@ == v && n.ui == (UiConfig { theme: n.ui.theme, ..o.ui }) && n == (Config { ui: n.ui, ..o })
        } else {
            (r matches Err(TerziError::InvalidInput(_))) && n == o
        }
    } else if key == "ui.editor"@ {
        r is Ok && n.ui.editor@ == v && n.ui == (UiConfig { editor: n.ui.editor, ..o.ui }) && n == (Config { ui: n.ui, ..o })
    } else if key == "ui.confirm_dangerous_operations"@ {
        match bool_parse(v) {
            Some(b) => r is Ok && n.ui.confirm_dangerous_operations == b && n.ui == (UiConfig { confirm_dangerous_operations: n.ui.confirm_dangerous_operations, ..o.ui }) && n == (Config { ui: n.ui, ..o }),
            None => (r matches Err(TerziError::InvalidInput(_))) && n == o,
        }
    } else if key == "ui.show_welcome_message"@ {
        match bool_parse(v) {
            Some(b) => r is Ok && n.ui.show_welcome_message == b && n.ui == (UiConfig { show_welcome_message: n.ui.show_welcome_message, ..o.ui }) && n == (Config { ui: n.ui, ..o }),
            None => (r matches Err(TerziError::InvalidInput(_))) && n == o,
        }
    } else if key == "ui.auto_complete"@ {
        match bool_parse(v) {
            Some(b) => r is Ok && n.ui.auto_complete == b && n.ui == (UiConfig { auto_complete: n.ui.auto_complete, ..o.ui }) && n == (Config { ui: n.ui, ..o }),
            None => (r matches Err(TerziError::InvalidInput(_))) && n == o,
        }
    } else if key == "ui.fuzzy_search"@ {
        match bool_parse(v) {
            Some(b) => r is Ok && n.ui.fuzzy_search == b && n.ui == (UiConfig { fuzzy_search: n.ui.fuzzy_search, ..o.ui }) && n == (Config { ui: n.ui, ..o }),
            None => (r matches Err(TerziError::InvalidInput(_))) && n == o,
        }
    } else if key == "ui.table_style"@ {
        if v == "ascii"@ || v == "rounded"@ || v == "modern"@ || v == "minimal"@ {
            r is Ok && n.ui.table_style@ == v && n.ui == (UiConfig { table_style: n.ui.table_style, ..o.ui }) && n == (Config { ui: n.ui, ..o })
        } else {
            (r matches Err(TerziError::InvalidInput(_))) && n == o
        }
    } else {
        (r matches Err(TerziError::NotFound(_))) && n == o
    }
}

impl Config {
    /// A fresh configuration whose editor is `editor`.
    pub fn defaults(editor: &str) -> (r: Self)
        ensures
            is_default(r, editor@),
    {
        Config {
            general: GeneralConfig {
                default_timeout: 30,
                follow_redirects: true,
                save_history: true,
                max_history_entries: 1000,
                auto_save_requests: false,
                check_updates: true,
            },
            output: OutputConfig {
                default_format: owned("auto"),
                pretty_print: true,
                show_headers: false,
                show_timing: true,
                show_size: true,
                syntax_highlighting: true,
                color_scheme: owned("dark"),
                max_body_length: Some(10000),
            },
            network: NetworkConfig {
                user_agent: owned("terzi/0.1.0"),
                proxy_url: None,
                verify_ssl: true,
                connection_timeout: 10,
                read_timeout: 30,
                max_redirects: 10,
                keep_alive: true,
                compression: true,
            },
            auth: AuthConfig {
                default_auth_type: None,
                stored_tokens: Table::new(),
                auto_refresh_tokens: true,
            },
            ui: UiConfig {
                theme: owned("default"),
                editor: owned(editor),
                confirm_dangerous_operations: true,
                show_welcome_message: true,
                auto_complete: true,
                fuzzy_search: true,
                table_style: owned("rounded"),
            },
        }
    }

    /// Puts every value back to its default, with `editor` as the editor.
    pub fn reset_to_defaults(&mut self, editor: &str)
        ensures
            is_default(*final(self), editor@),
    {
        *self = Config::defaults(editor);
    }

    /// The value under a configuration key, as text; `None` for an unknown
    /// key or an unset value.
    pub fn get_value(&self, key: &str) -> (r: Option<String>)
        ensures
            opt_view(r) == value_text(*self, key@),
    {
        if str_eq(key, "general.default_timeout") {
            Some(to_decimal(self.general.default_timeout as u128))
        } else if str_eq(key, "general.follow_redirects") {
            Some(owned(bool_str(self.general.follow_redirects)))
        } else if str_eq(key, "general.save_history") {
            Some(owned(bool_str(self.general.save_history)))
        } else if str_eq(key, "general.max_history_entries") {
            Some(to_decimal(self.general.max_history_entries as u128))
        } else if str_eq(key, "general.auto_save_requests") {
            Some(owned(bool_str(self.general.auto_save_requests)))
        } else if str_eq(key, "general.check_updates") {
            Some(owned(bool_str(self.general.check_updates)))
        } else if str_eq(key, "output.default_format") {
            Some(self.output.default_format.clone())
        } else if str_eq(key, "output.pretty_print") {
            Some(owned(bool_str(self.output.pretty_print)))
        } else if str_eq(key, "output.show_headers") {
            Some(owned(bool_str(self.output.show_headers)))
        } else if str_eq(key, "output.show_timing") {
            Some(owned(bool_str(self.output.show_timing)))
        } else if str_eq(key, "output.show_size") {
            Some(owned(bool_str(self.output.show_size)))
        } else if str_eq(key, "output.syntax_highlighting") {
            Some(owned(bool_str(self.output.syntax_highlighting)))
        } else if str_eq(key, "output.color_scheme") {
            Some(self.output.color_scheme.clone())
        } else if str_eq(key, "output.max_body_length") {
            match self.output.max_body_length { Some(n) => Some(to_decimal(n as u128)), None => None }
        } else if str_eq(key, "network.user_agent") {
            Some(self.network.user_agent.clone())
        } else if str_eq(key, "network.proxy_url") {
            copy_opt(&self.network.proxy_url)
        } else if str_eq(key, "network.verify_ssl") {
            Some(owned(bool_str(self.network.verify_ssl)))
        } else if str_eq(key, "network.connection_timeout") {
            Some(to_decimal(self.network.connection_timeout as u128))
        } else if str_eq(key, "network.read_timeout") {
            Some(to_decimal(self.network.read_timeout as u128))
        } else if str_eq(key, "network.max_redirects") {
            Some(to_decimal(self.network.max_redirects as u128))
        } else if str_eq(key, "network.keep_alive") {
            Some(owned(bool_str(self.network.keep_alive)))
        } else if str_eq(key, "network.compression") {
            Some(owned(bool_str(self.network.compression)))
        } else if str_eq(key, "ui.theme") {
            Some(self.ui.theme.clone())
        } else if str_eq(key, "ui.editor") {
            Some(self.ui.editor.clone())
        } else if str_eq(key, "ui.confirm_dangerous_operations") {
            Some(owned(bool_str(self.ui.confirm_dangerous_operations)))
        } else if str_eq(key, "ui.show_welcome_message") {
            Some(owned(bool_str(self.ui.show_welcome_message)))
        } else if str_eq(key, "ui.auto_complete") {
            Some(owned(bool_str(self.ui.auto_complete)))
        } else if str_eq(key, "ui.fuzzy_search") {
            Some(owned(bool_str(self.ui.fuzzy_search)))
        } else if str_eq(key, "ui.table_style") {
            Some(self.ui.table_style.clone())
        } else {
            None
        }
    }

    /// Sets a key of the `general` section; `None` when `key` is not one of them.
    fn set_general(&mut self, key: &str, value: &str) -> (r: Option<Result<(), TerziError>>)
        ensures
            r is Some ==> set_effect(*old(self), *final(self), key@, value@, r->Some_0),
            r is None ==> *final(self) == *old(self),
            r is None ==> key@ != "general.default_timeout"@,
            r is None ==> key@ != "general.follow_redirects"@,
            r is None ==> key@ != "general.save_history"@,
            r is None ==> key@ != "general.max_history_entries"@,
            r is None ==> key@ != "general.auto_save_requests"@,
            r is None ==> key@ != "general.check_updates"@,
    {
        proof {
            reveal_strlit("none");
        }
        if str_eq(key, "general.default_timeout") {
            Some({
                match parse_bounded(value, 18446744073709551615) {
                    Some(x) => {
                        self.general.default_timeout = x as u64;
                        Ok(())
                    },
                    None => Err(TerziError::InvalidInput(owned("Invalid timeout value"))),
                }
            })
        } else if str_eq(key, "general.follow_redirects") {
            Some({
                match parse_bool(value) {
                    Some(b) => {
                        self.general.follow_redirects = b;
                        Ok(())
                    },
                    None => Err(TerziError::InvalidInput(owned("Invalid boolean value"))),
                }
            })
        } else if str_eq(key, "general.save_history") {
            Some({
                match parse_bool(value) {
                    Some(b) => {
                        self.general.save_history = b;
                        Ok(())
                    },
                    None => Err(TerziError::InvalidInput(owned("Invalid boolean value"))),
                }
            })
        } else if str_eq(key, "general.max_history_entries") {
            Some({
                match parse_bounded(value, usize::MAX as u64) {
                    Some(x) => {
                        self.general.max_history_entries = x as usize;
                        Ok(())
                    },
                    None => Err(TerziError::InvalidInput(owned("Invalid number value"))),
                }
            })
        } else if str_eq(key, "general.auto_save_requests") {
            Some({
                match parse_bool(value) {
                    Some(b) => {
                        self.general.auto_save_requests = b;
                        Ok(())
                    },
                    None => Err(TerziError::InvalidInput(owned("Invalid boolean value"))),
                }
            })
        } else if str_eq(key, "general.check_updates") {
            Some({
                match parse_bool(value) {
                    Some(b) => {
                        self.general.check_updates = b;
                        Ok(())
                    },
                    None => Err(TerziError::InvalidInput(owned("Invalid boolean value"))),
                }
            })
        } else {
            None
        }
    }

    /// Sets a key of the `output` section; `None` when `key` is not one of them.
    fn set_output(&mut self, key: &str, value: &str) -> (r: Option<Result<(), TerziError>>)
        requires
            key@ != "general.default_timeout"@,
            key@ != "general.follow_redirects"@,
            key@ != "general.save_history"@,
            key@ != "general.max_history_entries"@,
            key@ != "general.auto_save_requests"@,
            key@ != "general.check_updates"@,
        ensures
            r is Some ==> set_effect(*old(self), *final(self), key@, value@, r->Some_0),
            r is None ==> *final(self) == *old(self),
            r is None ==> key@ != "output.default_format"@,
            r is None ==> key@ != "output.pretty_print"@,
            r is None ==> key@ != "output.show_headers"@,
            r is None ==> key@ != "output.show_timing"@,
            r is None ==> key@ != "output.show_size"@,
            r is None ==> key@ != "output.syntax_highlighting"@,
            r is None ==> key@ != "output.color_scheme"@,
            r is None ==> key@ != "output.max_body_length"@,
    {
        proof {
            reveal_strlit("none");
        }
        if str_eq(key, "output.default_format") {
            Some({
                if str_eq(value, "auto") || str_eq(value, "json") || str_eq(value, "yaml") || str_eq(value, "table") || str_eq(value, "raw") {
                    self.output.default_format = owned(value);
                    Ok(())
                } else {
                    Err(TerziError::InvalidInput(owned("Invalid format. Valid options: auto, json, yaml, table, raw")))
                }
            })
        } else if str_eq(key, "output.pretty_print") {
            Some({
                match parse_bool(value) {
                    Some(b) => {
                        self.output.pretty_print = b;
                        Ok(())
                    },
                    None => Err(TerziError::InvalidInput(owned("Invalid boolean value"))),
                }
            })
        } else if str_eq(key, "output.show_headers") {
            Some({
                match parse_bool(value) {
                    Some(b) => {
                        self.output.show_headers = b;
                        Ok(())
                    },
                    None => Err(TerziError::InvalidInput(owned("Invalid boolean value"))),
                }
            })
        } else if str_eq(key, "output.show_timing") {
            Some({
                match parse_bool(value) {
                    Some(b) => {
                        self.output.show_timing = b;
                        Ok(())
                    },
                    None => Err(TerziError::InvalidInput(owned("Invalid boolean value"))),
                }
            })
        } else if str_eq(key, "output.show_size") {
            Some({
                match parse_bool(value) {
                    Some(b) => {
                        self.output.show_size = b;
                        Ok(())
                    },
                    None => Err(TerziError::InvalidInput(owned("Invalid boolean value"))),
                }
            })
        } else if str_eq(key, "output.syntax_highlighting") {
            Some({
                match parse_bool(value) {
                    Some(b) => {
                        self.output.syntax_highlighting = b;
                        Ok(())
                    },
                    None => Err(TerziError::InvalidInput(owned("Invalid boolean value"))),
                }
            })
        } else if str_eq(key, "output.color_scheme") {
            Some({
                if str_eq(value, "dark") || str_eq(value, "light") || str_eq(value, "auto") {
                    self.output.color_scheme = owned(value);
                    Ok(())
                } else {
                    Err(TerziError::InvalidInput(owned("Invalid color scheme. Valid options: dark, light, auto")))
                }
            })
        } else if str_eq(key, "output.max_body_length") {
            Some({
                if str_eq(value, "none") || value.unicode_len() == 0 {
                    self.output.max_body_length = None;
                    Ok(())
                } else {
                    match parse_bounded(value, usize::MAX as u64) {
                        Some(x) => {
                            self.output.max_body_length = Some(x as usize);
                            Ok(())
                        },
                        None => Err(TerziError::InvalidInput(owned("Invalid number value"))),
                    }
                }
            })
        } else {
            None
        }
    }

    /// Sets a key of the `network` section; `None` when `key` is not one of them.
    fn set_network(&mut self, key: &str, value: &str) -> (r: Option<Result<(), TerziError>>)
        requires
            key@ != "general.default_timeout"@,
            key@ != "general.follow_redirects"@,
            key@ != "general.save_history"@,
            key@ != "general.max_history_entries"@,
            key@ != "general.auto_save_requests"@,
            key@ != "general.check_updates"@,
            key@ != "output.default_format"@,
            key@ != "output.pretty_print"@,
            key@ != "output.show_headers"@,
            key@ != "output.show_timing"@,
            key@ != "output.show_size"@,
            key@ != "output.syntax_highlighting"@,
            key@ != "output.color_scheme"@,
            key@ != "output.max_body_length"@,
        ensures
            r is Some ==> set_effect(*old(self), *final(self), key@, value@, r->Some_0),
            r is None ==> *final(self) == *old(self),
            r is None ==> key@ != "network.user_agent"@,
            r is None ==> key@ != "network.proxy_url"@,
            r is None ==> key@ != "network.verify_ssl"@,
            r is None ==> key@ != "network.connection_timeout"@,
            r is None ==> key@ != "network.read_timeout"@,
            r is None ==> key@ != "network.max_redirects"@,
            r is None ==> key@ != "network.keep_alive"@,
            r is None ==> key@ != "network.compression"@,
    {
        proof {
            reveal_strlit("none");
        }
        if str_eq(key, "network.user_agent") {
            Some({
                self.network.user_agent = owned(value);
                Ok(())
            })
        } else if str_eq(key, "network.proxy_url") {
            Some({
                if str_eq(value, "none") || value.unicode_len() == 0 {
                    self.network.proxy_url = None;
                    Ok(())
                } else if is_valid_url(value) {
                    self.network.proxy_url = Some(owned(value));
                    Ok(())
                } else {
                    Err(TerziError::InvalidInput(owned("Invalid proxy URL")))
                }
            })
        } else if str_eq(key, "network.verify_ssl") {
            Some({
                match parse_bool(value) {
                    Some(b) => {
                        self.network.verify_ssl = b;
                        Ok(())
                    },
                    None => Err(TerziError::InvalidInput(owned("Invalid boolean value"))),
                }
            })
        } else if str_eq(key, "network.connection_timeout") {
            Some({
                match parse_bounded(value, 18446744073709551615) {
                    Some(x) => {
                        self.network.connection_timeout = x as u64;
                        Ok(())
                    },
                    None => Err(TerziError::InvalidInput(owned("Invalid timeout value"))),
                }
            })
        } else if str_eq(key, "network.read_timeout") {
            Some({
                match parse_bounded(value, 18446744073709551615) {
                    Some(x) => {
                        self.network.read_timeout = x as u64;
                        Ok(())
                    },
                    None => Err(TerziError::InvalidInput(owned("Invalid timeout value"))),
                }
            })
        } else if str_eq(key, "network.max_redirects") {
            Some({
                match parse_bounded(value, 255) {
                    Some(x) => {
                        self.network.max_redirects = x as u8;
                        Ok(())
                    },
                    None => Err(TerziError::InvalidInput(owned("Invalid number value"))),
                }
            })
        } else if str_eq(key, "network.keep_alive") {
            Some({
                match parse_bool(value) {
                    Some(b) => {
                        self.network.keep_alive = b;
                        Ok(())
                    },
                    None => Err(TerziError::InvalidInput(owned("Invalid boolean value"))),
                }
            })
        } else if str_eq(key, "network.compression") {
            Some({
                match parse_bool(value) {
                    Some(b) => {
                        self.network.compression = b;
                        Ok(())
                    },
                    None => Err(TerziError::InvalidInput(owned("Invalid boolean value"))),
                }
            })
        } else {
            None
        }
    }

    /// Sets a key of the `ui` section; `None` when `key` is not one of them.
    fn set_ui(&mut self, key: &str, value: &str) -> (r: Option<Result<(), TerziError>>)
        requires
            key@ != "general.default_timeout"@,
            key@ != "general.follow_redirects"@,
            key@ != "general.save_history"@,
            key@ != "general.max_history_entries"@,
            key@ != "general.auto_save_requests"@,
            key@ != "general.check_updates"@,
            key@ != "output.default_format"@,
            key@ != "output.pretty_print"@,
            key@ != "output.show_headers"@,
            key@ != "output.show_timing"@,
            key@ != "output.show_size"@,
            key@ != "output.syntax_highlighting"@,
            key@ != "output.color_scheme"@,
            key@ != "output.max_body_length"@,
            key@ != "network.user_agent"@,
            key@ != "network.proxy_url"@,
            key@ != "network.verify_ssl"@,
            key@ != "network.connection_timeout"@,
            key@ != "network.read_timeout"@,
            key@ != "network.max_redirects"@,
            key@ != "network.keep_alive"@,
            key@ != "network.compression"@,
        ensures
            r is Some ==> set_effect(*old(self), *final(self), key@, value@, r->Some_0),
            r is None ==> *final(self) == *old(self),
            r is None ==> key@ != "ui.theme"@,
            r is None ==> key@ != "ui.editor"@,
            r is None ==> key@ != "ui.confirm_dangerous_operations"@,
            r is None ==> key@ != "ui.show_welcome_message"@,
            r is None ==> key@ != "ui.auto_complete"@,
            r is None ==> key@ != "ui.fuzzy_search"@,
            r is None ==> key@ != "ui.table_style"@,
    {
        proof {
            reveal_strlit("none");
        }
        if str_eq(key, "ui.theme") {
            Some({
                if str_eq(value, "default") || str_eq(value, "dark") || str_eq(value, "light") || str_eq(value, "minimal") {
                    self.ui.theme = owned(value);
                    Ok(())
                } else {
                    Err(TerziError::InvalidInput(owned("Invalid theme. Valid options: default, dark, light, minimal")))
                }
            })
        } else if str_eq(key, "ui.editor") {
            Some({
                self.ui.editor = owned(value);
                Ok(())
            })
        } else if str_eq(key, "ui.confirm_dangerous_operations") {
            Some({
                match parse_bool(value) {
                    Some(b) => {
                        self.ui.confirm_dangerous_operations = b;
                        Ok(())
                    },
                    None => Err(TerziError::InvalidInput(owned("Invalid boolean value"))),
                }
            })
        } else if str_eq(key, "ui.show_welcome_message") {
            Some({
                match parse_bool(value) {
                    Some(b) => {
                        self.ui.show_welcome_message = b;
                        Ok(())
                    },
                    None => Err(TerziError::InvalidInput(owned("Invalid boolean value"))),
                }
            })
        } else if str_eq(key, "ui.auto_complete") {
            Some({
                match parse_bool(value) {
                    Some(b) => {
                        self.ui.auto_complete = b;
                        Ok(())
                    },
                    None => Err(TerziError::InvalidInput(owned("Invalid boolean value"))),
                }
            })
        } else if str_eq(key, "ui.fuzzy_search") {
            Some({
                match parse_bool(value) {
                    Some(b) => {
                        self.ui.fuzzy_search = b;
                        Ok(())
                    },
                    None => Err(TerziError::InvalidInput(owned("Invalid boolean value"))),
                }
            })
        } else if str_eq(key, "ui.table_style") {
            Some({
                if str_eq(value, "ascii") || str_eq(value, "rounded") || str_eq(value, "modern") || str_eq(value, "minimal") {
                    self.ui.table_style = owned(value);
                    Ok(())
                } else {
                    Err(TerziError::InvalidInput(owned("Invalid table style. Valid options: ascii, rounded, modern, minimal")))
                }
            })
        } else {
            None
        }
    }

    /// Sets a configuration key from text; see `set_effect`.
    pub fn set_value(&mut self, key: &str, value: &str) -> (r: Result<(), TerziError>)
        ensures
            set_effect(*old(self), *final(self), key@, value@, r),
    {
        if let Some(r) = self.set_general(key, value) {
            return r;
        }
        if let Some(r) = self.set_output(key, value) {
            return r;
        }
        if let Some(r) = self.set_network(key, value) {
            return r;
        }
        if let Some(r) = self.set_ui(key, value) {
            return r;
        }
        let mut msg = owned("Unknown configuration key: ");
        msg.append(key);
        Err(TerziError::NotFound(msg))
    }

    /// Every configuration key, in order.
    pub fn list_all_keys() -> (r: Vec<&'static str>)
        ensures
            r@.map_values(|k: &'static str| k@) == config_keys(),
    {
        let r = vec!["general.default_timeout", "general.follow_redirects", "general.save_history", "general.max_history_entries", "general.auto_save_requests", "general.check_updates", "output.default_format", "output.pretty_print", "output.show_headers", "output.show_timing", "output.show_size", "output.syntax_highlighting", "output.color_scheme", "output.max_body_length", "network.user_agent", "network.proxy_url", "network.verify_ssl", "network.connection_timeout", "network.read_timeout", "network.max_redirects", "network.keep_alive", "network.compression", "ui.theme", "ui.editor", "ui.confirm_dangerous_operations", "ui.show_welcome_message", "ui.auto_complete", "ui.fuzzy_search", "ui.table_style"];
        assert(r@.map_values(|k: &'static str| k@) =~= config_keys());
        r
    }

    /// Stores a credential under `name`, replacing an earlier one.
    pub fn save_token(&mut self, name: &str, token: StoredToken)
        requires
            old(self).auth.stored_tokens.wf(),
        ensures
            final(self).auth.stored_tokens.wf(),
            final(self).auth.stored_tokens@ == old(self).auth.stored_tokens@.insert(name@, token@),
    {
        self.auth.stored_tokens.insert(owned(name), token);
    }

    /// The credential stored under `name`.
    pub fn get_token(&self, name: &str) -> (r: Option<&StoredToken>)
        requires
            self.auth.stored_tokens.wf(),
        ensures
            r is Some <==> self.auth.stored_tokens@.contains_key(name@),
            r is Some ==> r.unwrap()@ == self.auth.stored_tokens@[name@],
    {
        self.auth.stored_tokens.get(name)
    }

    /// Deletes the credential stored under `name`; returns whether there was one.
    pub fn delete_token(&mut self, name: &str) -> (r: bool)
        requires
            old(self).auth.stored_tokens.wf(),
        ensures
            final(self).auth.stored_tokens.wf(),
            r == old(self).auth.stored_tokens@.contains_key(name@),
            final(self).auth.stored_tokens@ == old(self).auth.stored_tokens@.remove(name@),
    {
        self.auth.stored_tokens.remove(name)
    }

    /// The names of the stored credentials, in the order they were first stored.
    pub fn list_tokens(&self) -> (r: Vec<String>)
        ensures
            crate::request::strings_view(r@) == self.auth.stored_tokens.entries@.map_values(
                |e: (String, StoredToken)| e.0@,
            ),
    {
        let es = &self.auth.stored_tokens.entries;
        let mut out: Vec<String> = Vec::new();
        let mut i: usize = 0;
        while i < es.len()
            invariant
                i <= es@.len(),
                crate::request::strings_view(out@) == es@.take(i as int).map_values(
                    |e: (String, StoredToken)| e.0@,
                ),
            decreases es@.len() - i,
        {
            let ghost before = out@;
            out.push(es[i].0.clone());
            proof {
                let f = |e: (String, StoredToken)| e.0@;
                assert(crate::request::strings_view(out@) =~= crate::request::strings_view(before).push(
                    es@[i as int].0@,
                ));
                assert(es@.take(i + 1).map_values(f) =~= es@.take(i as int).map_values(f).push(
                    es@[i as int].0@,
                ));
            }
            i = i + 1;
        }
        assert(es@.take(i as int) =~= es@);
        out
    }

    /// Checks the limits of `config_ok`; fails with `InvalidInput` naming the
    /// first one broken.
    pub fn validate(&self) -> (r: Result<(), TerziError>)
        ensures
            r is Ok <==> config_ok(*self),
            r is Err ==> (r matches Err(TerziError::InvalidInput(_))),
    {
        if self.general.default_timeout == 0 || self.general.default_timeout > 3600 {
            return Err(
                TerziError::InvalidInput(owned("Default timeout must be between 1 and 3600 seconds")),
            );
        }
        if self.network.connection_timeout == 0 || self.network.connection_timeout > 300 {
            return Err(
                TerziError::InvalidInput(
                    owned("Connection timeout must be between 1 and 300 seconds"),
                ),
            );
        }
        if self.network.read_timeout == 0 || self.network.read_timeout > 3600 {
            return Err(
                TerziError::InvalidInput(owned("Read timeout must be between 1 and 3600 seconds")),
            );
        }
        if self.network.max_redirects > 50 {
            return Err(TerziError::InvalidInput(owned("Max redirects cannot exceed 50")));
        }
        if self.general.max_history_entries == 0 || self.general.max_history_entries > 10000 {
            return Err(
                TerziError::InvalidInput(owned("Max history entries must be between 1 and 10000")),
            );
        }
        match &self.network.proxy_url {
            Some(p) => {
                if !is_valid_url(p.as_str()) {
                    let mut msg = owned("Invalid proxy URL: ");
                    msg.append(p.as_str());
                    return Err(TerziError::InvalidInput(msg));
                }
            },
            None => {},
        }
        Ok(())
    }

    /// The configured color scheme.
    pub fn get_color_scheme(&self) -> (r: &str)
        ensures
            r@ == self.output.color_scheme@,
    {
        self.output.color_scheme.as_str()
    }

    /// Colors are used for `dark` and `light`, and for `auto` when standard
    /// output is a terminal.
    pub fn should_use_colors(&self, stdout_is_tty: bool) -> (r: bool)
        ensures
            r == ((self.output.color_scheme@ == "auto"@ && stdout_is_tty)
                || self.output.color_scheme@ == "dark"@ || self.output.color_scheme@ == "light"@),
    {
        let s = self.output.color_scheme.as_str();
        proof {
            reveal_strlit("auto");
            reveal_strlit("dark");
            reveal_strlit("light");
            assert("auto"@[0] != "dark"@[0] && "auto"@[0] != "light"@[0]);
        }
        if str_eq(s, "auto") {
            stdout_is_tty
        } else {
            str_eq(s, "dark") || str_eq(s, "light")
        }
    }
}

impl Default for Config {
    /// A fresh configuration with `vim` as the editor.
    fn default() -> (r: Self)
        ensures
            is_default(r, "vim"@),
    {
        Config::defaults("vim")
    }
}

} // verus!
