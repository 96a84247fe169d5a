//! The settings of the single-node store, from the raw values of its environment
//! variables, and the checks it makes when it opens its files.

use vstd::prelude::*;
use vstd::string::StrSliceExecFns;

use crate::models::{AppError, SCHEMA_VERSION};
use crate::text::{parse_u64, parse_unsigned};
use crate::tikv::config::{mismatch, mismatch_error, opt_chars};

verus! {

/// The size of the memory map when none is configured: 10 GiB.
pub const DEFAULT_MAP_SIZE: u64 = 10737418240;

/// Concurrent readers when none is configured.
pub const DEFAULT_MAX_READERS: u32 = 1024;

/// The sub-databases opened, well above the number the store uses.
pub const MAX_DBS: u32 = 24;

/// `c` as lower case, for ASCII letters only.
pub open spec fn ascii_lower(c: char) -> char {
    if 'A' <= c <= 'Z' {
        ((c as u32) + 32) as char
    } else {
        c
    }
}

/// Whether `s` is `word` with ASCII letters in either case.
pub open spec fn eq_ignore_ascii_case(s: Seq<char>, word: Seq<char>) -> bool {
    s.len() == word.len() && forall|i: int| 0 <= i < s.len() ==> #[trigger] ascii_lower(s[i]) == ascii_lower(word[i])
}

proof fn lemma_lower_letter(c: char, lower: char, upper: char)
    requires
        'a' <= lower <= 'z',
        upper as int == lower as int - 32,
    ensures
        ascii_lower(c) == ascii_lower(lower) <==> (c == lower || c == upper),
{
    assert(ascii_lower(lower) == lower);
    if 'A' <= c <= 'Z' {
        assert((c as u32) as int == c as int);
    }
}

/// A flag setting: set when the variable is `1` or `true` in any case of its letters.
pub open spec fn spec_env_bool(raw: Option<Seq<char>>) -> bool {
    match raw {
        Some(v) => v == seq!['1'] || eq_ignore_ascii_case(v, seq!['t', 'r', 'u', 'e']),
        None => false,
    }
}

/// A flag setting: set when the variable is `1` or `true` in any case of its letters.
pub fn env_bool(raw: Option<&str>) -> (b: bool)
    ensures
        b == spec_env_bool(opt_chars(raw)),
{
    match raw {
        Some(v) => {
            let n = v.unicode_len();
            if n == 1 && v.get_char(0) == '1' {
                assert(v@ =~= seq!['1']);
                return true;
            }
            if n != 4 {
                proof {
                    if v@ == seq!['1'] {
                        assert(n == 1 && v@[0] == '1');
                    }
                }
                return false;
            }
            let word = ['t', 'r', 'u', 'e'];
            let upper = ['T', 'R', 'U', 'E'];
            let ghost w = seq!['t', 'r', 'u', 'e'];
            assert(word@ == w);
            assert forall|j: int| 0 <= j < 4 implies 'a' <= #[trigger] word@[j] <= 'z' && upper@[j] as int
                == word@[j] as int - 32 by {
                assert(word@[0] == 't' && word@[1] == 'r' && word@[2] == 'u' && word@[3] == 'e');
                assert(upper@[0] == 'T' && upper@[1] == 'R' && upper@[2] == 'U' && upper@[3] == 'E');
            }
            let mut i: usize = 0;
            while i < 4
                invariant
                    i <= 4,
                    n == 4,
                    v@.len() == 4,
                    opt_chars(raw) == Some(v@),
                    w == seq!['t', 'r', 'u', 'e'],
                    word@ == w,
                    forall|j: int| 0 <= j < 4 ==> 'a' <= #[trigger] word@[j] <= 'z' && upper@[j] as int
                        == word@[j] as int - 32,
                    forall|j: int| 0 <= j < i ==> #[trigger] ascii_lower(v@[j]) == ascii_lower(w[j]),
                decreases 4 - i,
            {
                let c = v.get_char(i);
                proof {
                    lemma_lower_letter(c, word[i as int], upper[i as int]);
                }
                if c != word[i] && c != upper[i] {
                    proof {
                        assert(ascii_lower(v@[i as int]) != ascii_lower(w[i as int]));
                        assert(v@ != seq!['1']);
                    }
                    return false;
                }
                i += 1;
            }
            true
        },
        None => false,
    }
}

/// A number setting as the single-node store reads it: the value as it is (not
/// trimmed), or `default` when it is unset, not a number, or above `max` (the largest
/// value of the setting's type).
pub fn env_number(raw: Option<&str>, default: u64, max: u64) -> (v: u64)
    ensures
        v == match opt_chars(raw) {
            Some(s) => match parse_unsigned(s, max as nat) {
                Some(n) => n,
                None => default as nat,
            },
            None => default as nat,
        },
{
    match raw {
        Some(s) => match parse_u64(s) {
            Some(v) => if v <= max {
                v
            } else {
                default
            },
            None => default,
        },
        None => default,
    }
}

/// The flags the store's files are opened with. Relaxing durability trades crash
/// safety away, so no flag is set unless asked for.
#[derive(Debug, Clone, Copy, PartialEq, Eq)]
pub struct EnvFlags {
    pub no_read_ahead: bool,
    pub write_map: bool,
    pub no_sync: bool,
    pub no_meta_sync: bool,
    pub map_async: bool,
}

/// The flags from the raw values of the read-ahead, write-map and no-sync variables.
/// Skipping syncs also skips metadata syncs, and with a writable map, flushes it
/// asynchronously.
pub fn env_flags(no_read_ahead_raw: Option<&str>, write_map_raw: Option<&str>, no_sync_raw: Option<&str>) -> (f: EnvFlags)
    ensures
        f.no_read_ahead == spec_env_bool(opt_chars(no_read_ahead_raw)),
        f.write_map == spec_env_bool(opt_chars(write_map_raw)),
        f.no_sync == spec_env_bool(opt_chars(no_sync_raw)),
        f.no_meta_sync == f.no_sync,
        f.map_async == (f.no_sync && f.write_map),
{
    let write_map = env_bool(write_map_raw);
    let no_sync = env_bool(no_sync_raw);
    EnvFlags {
        no_read_ahead: env_bool(no_read_ahead_raw),
        write_map,
        no_sync,
        no_meta_sync: no_sync,
        map_async: no_sync && write_map,
    }
}

/// What opening the store's files does, from the stored format version and whether
/// the user table is empty.
#[derive(Debug, Clone, Copy, PartialEq, Eq)]
pub struct OpenPlan {
    /// Record the current format version: a new store.
    pub write_version: bool,
    /// Create the default administrator: the user table is empty.
    pub create_root: bool,
}

/// The current version opens as it is; another version, or a store with users but no
/// version (written before versions were recorded), is refused; a store with neither
/// gets the current version. An empty user table gets the default administrator.
pub fn open_plan(found: Option<u32>, users_empty: bool) -> (r: Result<OpenPlan, AppError>)
    ensures
        found == Some(SCHEMA_VERSION) ==> r == Ok::<OpenPlan, AppError>(
            OpenPlan { write_version: false, create_root: users_empty },
        ),
        found is Some && found != Some(SCHEMA_VERSION) ==> r == Err::<OpenPlan, AppError>(mismatch_error(found)),
        found is None && !users_empty ==> r == Err::<OpenPlan, AppError>(mismatch_error(found)),
        found is None && users_empty ==> r == Ok::<OpenPlan, AppError>(
            OpenPlan { write_version: true, create_root: true },
        ),
{
    match found {
        Some(v) => {
            if v == SCHEMA_VERSION {
                Ok(OpenPlan { write_version: false, create_root: users_empty })
            } else {
                Err(mismatch(found))
            }
        },
        None => {
            if users_empty {
                Ok(OpenPlan { write_version: true, create_root: true })
            } else {
                Err(mismatch(found))
            }
        },
    }
}

} // verus!
