//! Generation history records and the keys under which they are stored.
use vstd::prelude::*;
use crate::style::{label_of, NamingStyle};

verus! {

/// The decimal digits of `n`, most significant first, without leading
/// zeros ("0" for zero).
pub open spec fn decimal(n: nat) -> Seq<char>
    decreases n,
{
    if n < 10 {
        seq![digit_char(n)]
    } else {
        decimal(n / 10).push(digit_char(n % 10))
    }
}

/// The character of the decimal digit `d`.
pub open spec fn digit_char(d: nat) -> char {
    ((d + 48) as u8) as char
}

/// `n` in decimal.
pub fn decimal_string(n: u64) -> (r: String)
    ensures
        r@ == decimal(n as nat),
{
    let mut digits: Vec<char> = Vec::new();
    let mut m: u64 = n;
    // the digits of n below the position reached, least significant first
    loop
        invariant
            m <= n,
            decimal(n as nat) == decimal(m as nat) + digits@.reverse(),
        ensures
            m < 10,
            decimal(n as nat) == decimal(m as nat) + digits@.reverse(),
        decreases m,
    {
        if m < 10 {
            break;
        }
        let d = m % 10;
        proof {
            assert(decimal(m as nat) == decimal((m / 10) as nat).push(digit_char((m % 10) as nat)));
            assert(digits@.push(digit_char(d as nat)).reverse() =~= seq![digit_char(d as nat)]
                + digits@.reverse());
        }
        digits.push(((d as u8) + 48) as char);
        m = m / 10;
    }
    let mut r = String::new();
    crate::text::push_char(&mut r, ((m as u8) + 48) as char);
    assert(r@ == decimal(m as nat));
    let k = digits.len();
    let mut i: usize = k;
    assert(digits@.reverse().subrange(0, 0) =~= Seq::<char>::empty());
    while i > 0
        invariant
            i <= k,
            k == digits@.len(),
            r@ == decimal(m as nat) + digits@.reverse().subrange(0, (k - i) as int),
            decimal(n as nat) == decimal(m as nat) + digits@.reverse(),
        decreases i,
    {
        proof {
            assert(digits@.reverse().subrange(0, (k - i + 1) as int) =~= digits@.reverse().subrange(
                0,
                (k - i) as int,
            ).push(digits@[i - 1]));
        }
        crate::text::push_char(&mut r, digits[i - 1]);
        i = i - 1;
    }
    assert(digits@.reverse().subrange(0, k as int) =~= digits@.reverse());
    r
}

/// The storage key of a record: its timestamp, the style's label and the
/// identifier, separated by colons. Keys sort by timestamp first.
pub open spec fn history_key(timestamp: u64, style: NamingStyle, variable_name: Seq<char>) -> Seq<
    char,
> {
    decimal(timestamp as nat) + seq![':'] + label_of(style) + seq![':'] + variable_name
}

/// One generated identifier, with what it was generated from and when.
#[derive(Clone, Debug, PartialEq, Eq)]
pub struct HistoryEntry {
    pub description: String,
    pub style: NamingStyle,
    pub variable_name: String,
    pub timestamp: u64,
}

impl HistoryEntry {
    /// A record of `variable_name`, made for `description` in `style` at
    /// `timestamp` (seconds since the Unix epoch).
    pub fn new(description: &str, style: NamingStyle, variable_name: &str, timestamp: u64) -> (r:
        HistoryEntry)
        ensures
            r.description@ == description@,
            r.style == style,
            r.variable_name@ == variable_name@,
            r.timestamp == timestamp,
    {
        HistoryEntry {
            description: description.to_string(),
            style,
            variable_name: variable_name.to_string(),
            timestamp,
        }
    }

    /// The key under which this record is stored.
    pub fn key(&self) -> (r: String)
        ensures
            r@ == history_key(self.timestamp, self.style, self.variable_name@),
    {
        let mut key = decimal_string(self.timestamp);
        key.append(":");
        key.append(self.style.label());
        key.append(":");
        key.append(self.variable_name.as_str());
        proof {
            reveal_strlit(":");
        }
        key
    }
}

} // verus!
