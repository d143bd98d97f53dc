//! User-level defaults: what each stored setting means, and the defaults
//! where one is missing or unreadable. Reading and writing the store is the
//! caller's part.
use vstd::prelude::*;

verus! {

/// A decimal digit.
pub open spec fn is_digit(c: char) -> bool {
    '0' <= c && c <= '9'
}

/// Every character of `s` is a decimal digit.
pub open spec fn all_digits(s: Seq<char>) -> bool {
    forall|i: int| 0 <= i < s.len() ==> is_digit(#[trigger] s[i])
}

/// The value of a string of decimal digits.
pub open spec fn digits_value(s: Seq<char>) -> nat
    decreases s.len(),
{
    if s.len() == 0 {
        0
    } else {
        digits_value(s.drop_last()) * 10 + ((s.last() as u32) - 48) as nat
    }
}

/// What `str::parse::<u64>` reads: an optional `+`, then one or more
/// decimal digits, of a value that fits in 64 bits.
pub open spec fn parsed_u64(s: Seq<char>) -> Option<u64> {
    let body = if s.len() > 0 && s[0] == '+' {
        s.drop_first()
    } else {
        s
    };
    if body.len() > 0 && all_digits(body) && digits_value(body) <= u64::MAX {
        Some(digits_value(body) as u64)
    } else {
        None
    }
}

proof fn lemma_digits_value_grows(s: Seq<char>, k: int)
    requires
        0 <= k <= s.len(),
        all_digits(s),
    ensures
        digits_value(s.subrange(0, k)) <= digits_value(s),
    decreases s.len() - k,
{
    if k < s.len() {
        lemma_digits_value_grows(s, k + 1);
        let p = s.subrange(0, k + 1);
        assert(p.drop_last() == s.subrange(0, k));
        assert(is_digit(s[k]));
        assert(digits_value(p) >= digits_value(s.subrange(0, k))) by (nonlinear_arith)
            requires
                digits_value(p) == digits_value(s.subrange(0, k)) * 10 + ((p.last() as u32)
                    - 48) as nat,
        ;
    } else {
        assert(s.subrange(0, k) == s);
    }
}

/// Reads an unsigned 64-bit number as `str::parse::<u64>` does.
pub fn parse_u64(s: &str) -> (r: Option<u64>)
    ensures
        r == parsed_u64(s@),
{
    let v = crate::text::char_vec(s);
    let n = v.len();
    let start: usize = if n > 0 && v[0] == '+' {
        1
    } else {
        0
    };
    let ghost body = if s@.len() > 0 && s@[0] == '+' {
        s@.drop_first()
    } else {
        s@
    };
    assert(body == v@.subrange(start as int, n as int));
    if start == n {
        return None;
    }
    let mut value: u64 = 0;
    let mut i: usize = start;
    assert(v@.subrange(start as int, start as int) == Seq::<char>::empty());
    while i < n
        invariant
            start <= i <= n,
            n == v@.len(),
            v@ == s@,
            body == v@.subrange(start as int, n as int),
            body == (if s@.len() > 0 && s@[0] == '+' {
                s@.drop_first()
            } else {
                s@
            }),
            forall|j: int| start <= j < i ==> is_digit(#[trigger] v@[j]),
            value == digits_value(v@.subrange(start as int, i as int)),
        decreases n - i,
    {
        let c = v[i];
        if !('0' <= c && c <= '9') {
            assert(!all_digits(body)) by {
                assert(body[i - start] == c);
            }
            return None;
        }
        let d = (c as u32 - 48) as u64;
        let ghost pre = v@.subrange(start as int, i as int);
        let ghost post = v@.subrange(start as int, i + 1);
        proof {
            assert(post.drop_last() == pre);
            assert(post.last() == c);
        }
        if value > (u64::MAX - d) / 10 {
            proof {
                assert(value * 10 + d > u64::MAX) by (nonlinear_arith)
                    requires
                        value > (u64::MAX - d) / 10,
                        d <= 9,
                ;
                if all_digits(body) {
                    assert(body.subrange(0, i + 1 - start) == post);
                    lemma_digits_value_grows(body, i + 1 - start);
                }
            }
            return None;
        }
        assert(value * 10 + d <= u64::MAX) by (nonlinear_arith)
            requires
                value <= (u64::MAX - d) / 10,
                d <= 9,
        ;
        value = value * 10 + d;
        i = i + 1;
    }
    assert(all_digits(body)) by {
        assert forall|j: int| 0 <= j < body.len() implies is_digit(#[trigger] body[j]) by {
            assert(body[j] == v@[j + start]);
        }
    }
    Some(value)
}

/// What `str::parse::<bool>` reads: exactly "true" or "false".
pub open spec fn parsed_bool(s: Seq<char>) -> Option<bool> {
    if s == "true"@ {
        Some(true)
    } else if s == "false"@ {
        Some(false)
    } else {
        None
    }
}

/// Reads a boolean as `str::parse::<bool>` does.
pub fn parse_bool(s: &str) -> (r: Option<bool>)
    ensures
        r == parsed_bool(s@),
{
    let text = s.to_string();
    let yes = "true".to_string();
    let no = "false".to_string();
    if text == yes {
        Some(true)
    } else if text == no {
        Some(false)
    } else {
        None
    }
}

/// The number of seconds in a day, the default lifetime of cached replies.
pub const DEFAULT_CACHE_TTL: u64 = 86400;

/// The defaults a user has set, as plain values.
#[derive(Debug, PartialEq, Eq)]
pub struct Settings {
    pub default_style: String,
    pub api_key: Option<String>,
    pub model: String,
    pub cache_enabled: bool,
    pub cache_ttl_secs: u64,
    pub mapping_config_path: Option<String>,
}

/// A stored text, where an empty one stands for a cleared setting.
pub open spec fn present(s: Option<String>) -> Option<Seq<char>> {
    match s {
        Some(t) => if t@.len() > 0 {
            Some(t@)
        } else {
            None
        },
        None => None,
    }
}

fn non_empty(s: Option<String>) -> (r: Option<String>)
    ensures
        match r {
            Some(t) => present(s) == Some(t@),
            None => present(s) is None,
        },
{
    match s {
        Some(t) => if t.as_str().is_empty() {
            None
        } else {
            Some(t)
        },
        None => None,
    }
}

impl Settings {
    /// The settings that stored values give: a missing default style is
    /// "snake", a missing model "qwen-tiny", a missing or unreadable cache
    /// flag true, a missing or unreadable cache lifetime a day; an empty
    /// credential or vocabulary path counts as none.
    pub fn from_stored(
        default_style: Option<String>,
        api_key: Option<String>,
        model: Option<String>,
        cache_enabled: Option<String>,
        cache_ttl: Option<String>,
        mapping_config_path: Option<String>,
    ) -> (r: Settings)
        ensures
            r.default_style@ == (match default_style {
                Some(s) => s@,
                None => "snake"@,
            }),
            r.model@ == (match model {
                Some(s) => s@,
                None => "qwen-tiny"@,
            }),
            r.cache_enabled == (match cache_enabled {
                Some(s) => match parsed_bool(s@) {
                    Some(b) => b,
                    None => true,
                },
                None => true,
            }),
            r.cache_ttl_secs == (match cache_ttl {
                Some(s) => match parsed_u64(s@) {
                    Some(n) => n,
                    None => DEFAULT_CACHE_TTL,
                },
                None => DEFAULT_CACHE_TTL,
            }),
            match r.api_key {
                Some(k) => present(api_key) == Some(k@),
                None => present(api_key) is None,
            },
            match r.mapping_config_path {
                Some(p) => present(mapping_config_path) == Some(p@),
                None => present(mapping_config_path) is None,
            },
    {
        let default_style = match default_style {
            Some(s) => s,
            None => "snake".to_string(),
        };
        let model = match model {
            Some(s) => s,
            None => "qwen-tiny".to_string(),
        };
        let cache_enabled = match cache_enabled {
            Some(s) => match parse_bool(s.as_str()) {
                Some(b) => b,
                None => true,
            },
            None => true,
        };
        let cache_ttl_secs = match cache_ttl {
            Some(s) => match parse_u64(s.as_str()) {
                Some(n) => n,
                None => DEFAULT_CACHE_TTL,
            },
            None => DEFAULT_CACHE_TTL,
        };
        Settings {
            default_style,
            api_key: non_empty(api_key),
            model,
            cache_enabled,
            cache_ttl_secs,
            mapping_config_path: non_empty(mapping_config_path),
        }
    }
}

} // verus!
