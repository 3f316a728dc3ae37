use vstd::prelude::*;
use vstd::string::StrSliceExecFns;

verus! {

/// The prefix every address handed to the browser must carry.
pub const REQ_PREFIX: &'static str = "https://";

/// The n-gram order used when none is given.
pub const NGRAM_SIZE_DEFAULT: usize = 1;

/// The n-gram order that larger requests are reported against.
pub const NGRAM_SIZE_MAX: usize = 16;

/// The n-gram order of the text generator: the default when none is asked
/// for, else the larger of the request and `NGRAM_SIZE_MAX`.
pub fn ngram_order(requested: Option<u8>) -> (r: usize)
    ensures
        r == (match requested {
            None => NGRAM_SIZE_DEFAULT as int,
            Some(s) => if s as int > NGRAM_SIZE_MAX as int {
                s as int
            } else {
                NGRAM_SIZE_MAX as int
            },
        }),
{
    match requested {
        None => NGRAM_SIZE_DEFAULT,
        Some(s) => if s as usize > NGRAM_SIZE_MAX {
            s as usize
        } else {
            NGRAM_SIZE_MAX
        },
    }
}

/// Whether a requested n-gram order is above `NGRAM_SIZE_MAX`.
pub fn ngram_over_max(requested: Option<u8>) -> (r: bool)
    ensures
        r == (match requested {
            None => false,
            Some(s) => s as int > NGRAM_SIZE_MAX as int,
        }),
{
    match requested {
        None => false,
        Some(s) => s as usize > NGRAM_SIZE_MAX,
    }
}

/// Whether `s` starts with the characters of `prefix`.
pub fn starts_with_chars(s: &str, prefix: &str) -> (r: bool)
    ensures
        r == (prefix@.len() <= s@.len() && s@.subrange(0, prefix@.len() as int) == prefix@),
{
    let n = prefix.unicode_len();
    if n > s.unicode_len() {
        return false;
    }
    let mut i: usize = 0;
    while i < n
        invariant
            n == prefix@.len(),
            n <= s@.len(),
            i <= n,
            forall|j: int| 0 <= j < i ==> s@[j] == prefix@[j],
        decreases n - i,
    {
        if s.get_char(i) != prefix.get_char(i) {
            assert(s@.subrange(0, n as int)[i as int] != prefix@[i as int]);
            return false;
        }
        i = i + 1;
    }
    assert(s@.subrange(0, n as int) =~= prefix@);
    true
}

/// Whether the address already carries `REQ_PREFIX`; if not, it is
/// prepended before the address is opened.
pub fn needs_prefix(path: &str) -> (r: bool)
    ensures
        r == !(REQ_PREFIX@.len() <= path@.len() && path@.subrange(0, REQ_PREFIX@.len() as int)
            == REQ_PREFIX@),
{
    !starts_with_chars(path, REQ_PREFIX)
}

/// Whether more than one of three mutually exclusive flags is set.
pub fn flags_conflict(raw_paths: bool, show_errors: bool, found_paths_only: bool) -> (r: bool)
    ensures
        r == ((raw_paths && show_errors) || (raw_paths && found_paths_only) || (show_errors
            && found_paths_only)),
{
    let mut n: u8 = 0;
    if raw_paths {
        n = n + 1;
    }
    if show_errors {
        n = n + 1;
    }
    if found_paths_only {
        n = n + 1;
    }
    n > 1
}

} // verus!
