use vstd::prelude::*;

verus! {

/// How a dataset is cut into units.
#[derive(Clone, Copy, Debug, PartialEq, Eq, Structural)]
pub enum Mode {
    Lines,
    Words,
    File,
}

/// A configuration problem that must stop a run before anything is measured.
#[derive(Debug)]
pub enum ConfigError {
    /// The mode name is none of the accepted ones; `file_allowed` tells whether
    /// `file` was among them.
    UnknownMode { value: String, file_allowed: bool },
    /// Tokenizing the dataset produced no unit at all.
    NoUnits,
    /// Fewer than two units, so no pair can be formed.
    TooFewUnits,
    /// Pairing (and truncation) left no pair.
    NoPairs,
    /// The error-bound percentage is not a non-negative integer.
    BadErrorBound { value: String },
}

/// Percentage used for pair bounds where none is configured.
pub const DEFAULT_ERROR_BOUND: u64 = 15;

/// Cap on the number of pairs where none is configured.
pub const DEFAULT_MAX_PAIRS: usize = 100;

pub open spec fn is_digit(c: char) -> bool {
    '0' <= c && c <= '9'
}

pub open spec fn digit_value(c: char) -> int {
    (c as int) - ('0' as int)
}

/// Value of a string of decimal digits.
pub open spec fn decimal_value(s: Seq<char>) -> int
    decreases s.len(),
{
    if s.len() == 0 {
        0
    } else {
        decimal_value(s.drop_last()) * 10 + digit_value(s.last())
    }
}

/// The digits of an unsigned integer literal: an optional `+` sign removed.
pub open spec fn unsigned_digits(s: Seq<char>) -> Seq<char> {
    if s.len() > 0 && s[0] == '+' {
        s.drop_first()
    } else {
        s
    }
}

/// The unsigned integer that `s` writes, where it writes one: an optional `+`,
/// then one or more decimal digits.
pub open spec fn unsigned_value(s: Seq<char>) -> Option<int> {
    let d = unsigned_digits(s);
    if d.len() > 0 && forall|i: int| 0 <= i < d.len() ==> is_digit(#[trigger] d[i]) {
        Some(decimal_value(d))
    } else {
        None
    }
}

proof fn lemma_decimal_grows(d: Seq<char>, i: int)
    requires
        0 <= i <= d.len(),
        forall|k: int| 0 <= k < d.len() ==> is_digit(#[trigger] d[k]),
    ensures
        0 <= decimal_value(d.take(i)) <= decimal_value(d),
    decreases d.len() - i,
{
    if i < d.len() {
        lemma_decimal_grows(d, i + 1);
        assert(d.take(i + 1).drop_last() =~= d.take(i));
        assert(d.take(i + 1).last() == d[i]);
    } else {
        assert(d.take(i) =~= d);
    }
    lemma_decimal_nonneg(d.take(i));
}

proof fn lemma_decimal_nonneg(d: Seq<char>)
    requires
        forall|k: int| 0 <= k < d.len() ==> is_digit(#[trigger] d[k]),
    ensures
        decimal_value(d) >= 0,
    decreases d.len(),
{
    if d.len() > 0 {
        assert(is_digit(d[d.len() - 1]));
        lemma_decimal_nonneg(d.drop_last());
    }
}

/// Reads an unsigned integer no greater than `limit`.
pub fn parse_unsigned(s: &str, limit: u64) -> (r: Option<u64>)
    ensures
        match unsigned_value(s@) {
            Some(v) => if v <= limit {
                r == Some(v as u64)
            } else {
                r is None
            },
            None => r is None,
        },
        r matches Some(x) ==> x <= limit && unsigned_value(s@) == Some(x as int),
{
    let n = s.unicode_len();
    let mut i: usize = 0;
    if n > 0 && s.get_char(0) == '+' {
        i = 1;
    }
    let ghost d = unsigned_digits(s@);
    let ghost first = i as int;
    assert(d =~= s@.subrange(first, n as int));
    if i == n {
        return None;
    }
    let mut v: u64 = 0;
    while i < n
        invariant
            n == s@.len(),
            first <= i <= n,
            first == 0 || first == 1,
            d == s@.subrange(first, n as int),
            d == unsigned_digits(s@),
            v <= limit,
            forall|k: int| 0 <= k < i - first ==> is_digit(#[trigger] d[k]),
            v == decimal_value(d.take(i - first)),
        decreases n - i,
    {
        let c = s.get_char(i);
        if c < '0' || c > '9' {
            assert(!is_digit(d[i - first]));
            return None;
        }
        let dv = (c as u32 - '0' as u32) as u64;
        assert(d.take(i + 1 - first).drop_last() =~= d.take(i - first));
        assert(d.take(i + 1 - first).last() == c);
        assert(decimal_value(d.take(i + 1 - first)) == v * 10 + dv);
        if dv > limit || v > (limit - dv) / 10 {
            proof {
                if dv <= limit {
                    let q = (limit - dv) / 10;
                    assert(v * 10 + dv > limit) by (nonlinear_arith)
                        requires
                            q == (limit - dv) / 10,
                            v > q,
                            dv <= limit,
                    ;
                }
                lemma_decimal_nonneg(d.take(i - first));
                if forall|k: int| 0 <= k < d.len() ==> is_digit(#[trigger] d[k]) {
                    lemma_decimal_grows(d, i + 1 - first);
                }
            }
            return None;
        }
        v = v * 10 + dv;
        i = i + 1;
    }
    assert(d.take(n - first) =~= d);
    Some(v)
}

/// The error-bound percentage: the default where none is given; a value that
/// is not a non-negative integer (or does not fit in 64 bits) is refused.
pub fn parse_error_bound(value: Option<&str>) -> (r: Result<u64, ConfigError>)
    ensures
        value is None ==> r == Ok::<u64, ConfigError>(DEFAULT_ERROR_BOUND),
        value matches Some(s) ==> match unsigned_value(s@) {
            Some(v) => if v <= u64::MAX {
                r == Ok::<u64, ConfigError>(v as u64)
            } else {
                r matches Err(ConfigError::BadErrorBound { value }) && value@ == s@
            },
            None => r matches Err(ConfigError::BadErrorBound { value }) && value@ == s@,
        },
{
    match value {
        None => Ok(DEFAULT_ERROR_BOUND),
        Some(s) => match parse_unsigned(s, u64::MAX) {
            Some(v) => Ok(v),
            None => Err(ConfigError::BadErrorBound { value: s.to_owned() }),
        },
    }
}

/// The cap on pairs: the value given where it is a non-negative integer that
/// fits in `usize`, else the default.
pub fn parse_max_pairs(value: Option<&str>) -> (r: usize)
    ensures
        value is None ==> r == DEFAULT_MAX_PAIRS,
        value matches Some(s) ==> match unsigned_value(s@) {
            Some(v) => if v <= usize::MAX {
                r == v
            } else {
                r == DEFAULT_MAX_PAIRS
            },
            None => r == DEFAULT_MAX_PAIRS,
        },
{
    let limit = usize::MAX as u64;
    assert(limit == usize::MAX);
    match value {
        None => DEFAULT_MAX_PAIRS,
        Some(s) => match parse_unsigned(s, limit) {
            Some(v) => {
                assert(v <= usize::MAX);
                v as usize
            },
            None => DEFAULT_MAX_PAIRS,
        },
    }
}

/// Whether two strings hold the same characters.
pub fn same_text(s: &str, t: &str) -> (r: bool)
    ensures
        r == (s@ == t@),
{
    let n = s.unicode_len();
    if n != t.unicode_len() {
        return false;
    }
    let mut i: usize = 0;
    while i < n
        invariant
            n == s@.len(),
            n == t@.len(),
            i <= n,
            forall|k: int| 0 <= k < i ==> s@[k] == t@[k],
        decreases n - i,
    {
        if s.get_char(i) != t.get_char(i) {
            return false;
        }
        i = i + 1;
    }
    assert(s@ =~= t@);
    true
}

/// The mode that a name selects: `lines`, `words`, and `file` where
/// `file_allowed` holds.
pub open spec fn mode_named(name: Seq<char>, file_allowed: bool) -> Option<Mode> {
    if name == "lines"@ {
        Some(Mode::Lines)
    } else if name == "words"@ {
        Some(Mode::Words)
    } else if file_allowed && name == "file"@ {
        Some(Mode::File)
    } else {
        None
    }
}

/// Reads a mode name; any other name is an error that carries it.
pub fn parse_mode(name: &str, file_allowed: bool) -> (r: Result<Mode, ConfigError>)
    ensures
        match r {
            Ok(m) => mode_named(name@, file_allowed) == Some(m),
            Err(ConfigError::UnknownMode { value, file_allowed: f }) => mode_named(
                name@,
                file_allowed,
            ) is None && value@ == name@ && f == file_allowed,
            Err(_) => false,
        },
{
    if same_text(name, "lines") {
        Ok(Mode::Lines)
    } else if same_text(name, "words") {
        Ok(Mode::Words)
    } else if file_allowed && same_text(name, "file") {
        Ok(Mode::File)
    } else {
        Err(ConfigError::UnknownMode { value: name.to_owned(), file_allowed })
    }
}

} // verus!
