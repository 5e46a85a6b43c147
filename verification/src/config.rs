//! Runtime configuration: where the server listens and where data lives.
use vstd::prelude::*;

use crate::text::{push_char, push_str, string_from, to_chars};

verus! {

/// The runtime configuration. The two paths are held as text.
pub struct Config {
    /// The host the server listens on.
    pub host: String,
    /// The port the server listens on.
    pub port: u16,
    /// The SQLite database file.
    pub database_path: String,
    /// The root directory of the Markdown files.
    pub storage_root: String,
}

/// The decimal digit for `d < 10`.
pub open spec fn digit_char(d: nat) -> char {
    if d == 0 {
        '0'
    } else if d == 1 {
        '1'
    } else if d == 2 {
        '2'
    } else if d == 3 {
        '3'
    } else if d == 4 {
        '4'
    } else if d == 5 {
        '5'
    } else if d == 6 {
        '6'
    } else if d == 7 {
        '7'
    } else if d == 8 {
        '8'
    } else {
        '9'
    }
}

/// The decimal form of `n`, without leading zeros.
pub open spec fn decimal(n: nat) -> Seq<char>
    decreases n,
{
    if n < 10 {
        seq![digit_char(n)]
    } else {
        decimal(n / 10).push(digit_char(n % 10))
    }
}

fn digit(d: u16) -> (c: char)
    requires
        d < 10,
    ensures
        c == digit_char(d as nat),
{
    if d == 0 {
        '0'
    } else if d == 1 {
        '1'
    } else if d == 2 {
        '2'
    } else if d == 3 {
        '3'
    } else if d == 4 {
        '4'
    } else if d == 5 {
        '5'
    } else if d == 6 {
        '6'
    } else if d == 7 {
        '7'
    } else if d == 8 {
        '8'
    } else {
        '9'
    }
}

fn push_decimal(out: &mut String, n: u16)
    ensures
        final(out)@ == old(out)@ + decimal(n as nat),
    decreases n,
{
    if n >= 10 {
        push_decimal(out, n / 10);
    }
    push_char(out, digit(n % 10));
    assert(final(out)@ =~= old(out)@ + decimal(n as nat));
}

/// A decimal digit.
pub open spec fn is_digit(c: char) -> bool {
    '0' <= c && c <= '9'
}

/// The number a text of decimal digits writes.
pub open spec fn digits_value(s: Seq<char>) -> int
    decreases s.len(),
{
    if s.len() == 0 {
        0
    } else {
        digits_value(s.drop_last()) * 10 + ((s.last() as int) - ('0' as int))
    }
}

/// The digits of a number setting: the text after one optional `+`.
pub open spec fn unsigned_digits(s: Seq<char>) -> Seq<char> {
    if s.len() > 0 && s[0] == '+' {
        s.drop_first()
    } else {
        s
    }
}

/// What `str::parse::<u16>` reads: one optional `+`, then one or more
/// decimal digits whose number is at most 65535.
pub open spec fn parsed_port(s: Seq<char>) -> Option<u16> {
    let d = unsigned_digits(s);
    if d.len() > 0 && (forall|i: int| 0 <= i < d.len() ==> is_digit(#[trigger] d[i])) && digits_value(d)
        <= 65535 {
        Some(digits_value(d) as u16)
    } else {
        None
    }
}

proof fn lemma_digits_value_grows(s: Seq<char>, k: int)
    requires
        0 <= k <= s.len(),
        forall|i: int| 0 <= i < s.len() ==> is_digit(#[trigger] s[i]),
    ensures
        0 <= digits_value(s.take(k)) <= digits_value(s),
    decreases s.len(),
{
    if s.len() > 0 {
        if k == s.len() {
            assert(s.take(k) =~= s);
            lemma_digits_value_grows(s.drop_last(), 0);
        } else {
            lemma_digits_value_grows(s.drop_last(), k);
            assert(s.drop_last().take(k) =~= s.take(k));
        }
    }
}

/// A port setting read as a number, as `str::parse::<u16>` reads it.
pub fn parse_port(s: &str) -> (r: Option<u16>)
    ensures
        r == parsed_port(s@),
{
    let cs = to_chars(s);
    let mut start: usize = 0;
    if cs.len() > 0 && cs[0] == '+' {
        start = 1;
    }
    let ghost d = unsigned_digits(s@);
    assert(d =~= cs@.subrange(start as int, cs@.len() as int));
    if start == cs.len() {
        return None;
    }
    let mut value: u32 = 0;
    let mut i: usize = start;
    while i < cs.len()
        invariant
            start <= i <= cs@.len(),
            start < cs@.len(),
            cs@ == s@,
            d == unsigned_digits(s@),
            d == cs@.subrange(start as int, cs@.len() as int),
            forall|k: int| start <= k < i ==> is_digit(#[trigger] cs@[k]),
            value == digits_value(cs@.subrange(start as int, i as int)),
            value <= 65535,
        decreases cs@.len() - i,
    {
        let c = cs[i];
        if !('0' <= c && c <= '9') {
            assert(!is_digit(d[i - start]));
            return None;
        }
        let next = value * 10 + ((c as u32) - ('0' as u32));
        assert(cs@.subrange(start as int, i + 1).drop_last() =~= cs@.subrange(start as int, i as int));
        assert(next == digits_value(cs@.subrange(start as int, i + 1)));
        if next > 65535 {
            proof {
                if forall|k: int| 0 <= k < d.len() ==> is_digit(#[trigger] d[k]) {
                    lemma_digits_value_grows(d, i + 1 - start);
                    assert(d.take(i + 1 - start) =~= cs@.subrange(start as int, i + 1));
                }
            }
            return None;
        }
        value = next;
        i = i + 1;
    }
    assert(cs@.subrange(start as int, i as int) =~= d);
    Some(value as u16)
}

/// A setting's text, or `default` when it is not set.
pub open spec fn setting_or(v: Option<String>, default: Seq<char>) -> Seq<char> {
    match v {
        Some(s) => s@,
        None => default,
    }
}

impl Config {
    /// The configuration from the settings `LDN_HOST`, `LDN_PORT`,
    /// `LDN_DATABASE_PATH` and `LDN_STORAGE_ROOT` (`None` when one is not
    /// set): host `127.0.0.1`, port 3000 (also when the setting is no
    /// number from 0 to 65535), database `data/ld-notion.db` and storage
    /// `data/storage` by default.
    pub fn from_settings(
        host: Option<String>,
        port: Option<String>,
        database_path: Option<String>,
        storage_root: Option<String>,
    ) -> (r: Config)
        ensures
            r.host@ == setting_or(host, "127.0.0.1"@),
            r.port == match port {
                Some(p) => match parsed_port(p@) {
                    Some(n) => n,
                    None => 3000,
                },
                None => 3000,
            },
            r.database_path@ == setting_or(database_path, "data/ld-notion.db"@),
            r.storage_root@ == setting_or(storage_root, "data/storage"@),
    {
        let host = match host {
            Some(h) => h,
            None => string_from("127.0.0.1"),
        };
        let port = match port {
            Some(p) => match parse_port(p.as_str()) {
                Some(n) => n,
                None => 3000,
            },
            None => 3000,
        };
        let database_path = match database_path {
            Some(d) => d,
            None => string_from("data/ld-notion.db"),
        };
        let storage_root = match storage_root {
            Some(d) => d,
            None => string_from("data/storage"),
        };
        Config { host, port, database_path, storage_root }
    }

    /// The address to listen on: `host:port`.
    pub fn bind_address(&self) -> (r: String)
        ensures
            r@ == self.host@ + seq![':'] + decimal(self.port as nat),
    {
        let mut out = String::new();
        push_str(&mut out, self.host.as_str());
        push_char(&mut out, ':');
        push_decimal(&mut out, self.port);
        out
    }

    /// Checks the configuration: the port is not 0 and neither path is empty.
    /// The first check that fails gives the error.
    pub fn validate(&self) -> (r: Result<(), String>)
        ensures
            match r {
                Ok(()) => self.port != 0 && self.database_path@.len() > 0 && self.storage_root@.len() > 0,
                Err(msg) => if self.port == 0 {
                    msg@ == "端口号不能为 0"@
                } else if self.database_path@.len() == 0 {
                    msg@ == "数据库路径不能为空"@
                } else {
                    self.storage_root@.len() == 0 && msg@ == "存储根目录不能为空"@
                },
            },
    {
        if self.port == 0 {
            return Err(string_from("端口号不能为 0"));
        }
        if self.database_path.as_str().is_empty() {
            return Err(string_from("数据库路径不能为空"));
        }
        if self.storage_root.as_str().is_empty() {
            return Err(string_from("存储根目录不能为空"));
        }
        Ok(())
    }
}

} // verus!
