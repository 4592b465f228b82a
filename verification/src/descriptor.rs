//! Descriptor enrichment: derives identity, filename and a classification
//! label from a (path, key) pair together with best-effort filesystem stats
//! supplied by the caller.
use vstd::prelude::*;

use crate::text::has_suffix;
use crate::text::split_char;
use crate::text::split_char_spec;
use crate::text::str_eq;
use crate::text::str_has_suffix;
use crate::text::u64_dec_spec;
use crate::text::u64_hex_spec;
use crate::text::u64_to_dec;
use crate::text::u64_to_hex;

verus! {

/// One catalogued encrypted database, immutable once built.
#[derive(Debug, Clone, PartialEq)]
pub struct DatabaseInfo {
    pub id: String,
    pub path: String,
    pub key: String,
    pub cipher_compatibility: i32,
    pub db_type: String,
    pub filename: String,
    pub size: Option<u64>,
    pub accessible: bool,
    pub last_modified: Option<String>,
}

/// Best-effort filesystem facts about a path, gathered by the caller;
/// absent fields mean the metadata could not be read.
#[derive(Debug, Clone, Copy, PartialEq, Eq)]
pub struct FileStat {
    pub exists: bool,
    pub size: Option<u64>,
    pub modified_secs: Option<u64>,
}

/// The fallback token used when no filename or label can be derived.
pub open spec fn unknown_token() -> Seq<char> {
    "unknown"@
}

/// The last real piece: empty pieces and bare current-directory dots are
/// skipped, a trailing parent-directory marker means no filename exists,
/// and the fallback token covers both that and an exhausted path.
pub open spec fn last_file_segment(segs: Seq<Seq<char>>) -> Seq<char>
    decreases segs.len(),
{
    if segs.len() == 0 {
        unknown_token()
    } else if segs.last().len() == 0 || segs.last() == seq!['.'] {
        last_file_segment(segs.drop_last())
    } else if segs.last() == seq!['.', '.'] {
        unknown_token()
    } else {
        segs.last()
    }
}

/// The path's final path-segment, or the fallback token.
pub open spec fn filename_spec(path: Seq<char>) -> Seq<char> {
    last_file_segment(split_char_spec(path, '/'))
}

/// Scanning segments from the end: the first one ending in the database
/// extension (not counting the path's very first segment) names its
/// preceding segment as the classification label.
pub open spec fn db_type_scan(segs: Seq<Seq<char>>) -> Seq<char>
    decreases segs.len(),
{
    if segs.len() == 0 {
        unknown_token()
    } else if segs.len() > 1 && has_suffix(segs.last(), ".db"@) {
        segs[segs.len() - 2]
    } else {
        db_type_scan(segs.drop_last())
    }
}

/// The classification label derived from the path's parent directory.
pub open spec fn db_type_spec(path: Seq<char>) -> Seq<char> {
    db_type_scan(split_char_spec(path, '/'))
}

pub fn extract_filename(path: &str) -> (r: String)
    ensures
        r@ == filename_spec(path@),
{
    let segs = split_char(path, '/');
    let ghost segsv = split_char_spec(path@, '/');
    proof {
        assert(segs@.map_values(|t: &str| t@) == segsv);
    }
    let mut i: usize = segs.len();
    proof {
        assert(segsv.take(i as int) =~= segsv);
        reveal_strlit(".");
        reveal_strlit("..");
        assert("."@ =~= seq!['.']);
        assert(".."@ =~= seq!['.', '.']);
    }
    while i > 0
        invariant
            i <= segs.len(),
            segs@.map_values(|t: &str| t@) == segsv,
            segsv == split_char_spec(path@, '/'),
            "."@ == seq!['.'],
            ".."@ == seq!['.', '.'],
            last_file_segment(segsv.take(i as int)) == last_file_segment(segsv),
        decreases i,
    {
        proof {
            assert(segsv.take(i as int).last() == segsv[i as int - 1]);
            assert(segsv[i as int - 1] == segs@[i as int - 1]@);
        }
        if segs[i - 1].is_empty() || str_eq(segs[i - 1], ".") {
            proof {
                assert(segsv.take(i as int).drop_last() =~= segsv.take(i as int - 1));
            }
        } else if str_eq(segs[i - 1], "..") {
            proof {
                assert(last_file_segment(segsv.take(i as int)) == unknown_token());
            }
            return String::from_str("unknown");
        } else {
            proof {
                assert(last_file_segment(segsv.take(i as int)) == segsv[i as int - 1]);
            }
            return String::from_str(segs[i - 1]);
        }
        i -= 1;
    }
    proof {
        assert(segsv.take(0) =~= Seq::<Seq<char>>::empty());
    }
    String::from_str("unknown")
}

/// The label for a path: the segment preceding the last `.db`-suffixed
/// segment, skipping a `.db` suffix on the path's very first segment.
pub fn extract_db_type(path: &str) -> (r: String)
    ensures
        r@ == db_type_spec(path@),
{
    let segs = split_char(path, '/');
    let ghost segsv = split_char_spec(path@, '/');
    proof {
        assert(segs@.map_values(|t: &str| t@) == segsv);
    }
    let mut i: usize = segs.len();
    proof {
        assert(segsv.take(i as int) =~= segsv);
    }
    while i > 0
        invariant
            i <= segs.len(),
            segs@.map_values(|t: &str| t@) == segsv,
            segsv == split_char_spec(path@, '/'),
            db_type_scan(segsv.take(i as int)) == db_type_scan(segsv),
        decreases i,
    {
        proof {
            assert(segsv.take(i as int).last() == segsv[i as int - 1]);
            assert(segsv[i as int - 1] == segs@[i as int - 1]@);
        }
        if i > 1 && str_has_suffix(segs[i - 1], ".db") {
            proof {
                assert(segsv.take(i as int)[i as int - 2] == segsv[i as int - 2]);
                assert(segsv[i as int - 2] == segs@[i as int - 2]@);
                assert(db_type_scan(segsv.take(i as int)) == segsv[i as int - 2]);
            }
            return String::from_str(segs[i - 2]);
        }
        proof {
            assert(segsv.take(i as int).drop_last() =~= segsv.take(i as int - 1));
        }
        i -= 1;
    }
    proof {
        assert(segsv.take(0) =~= Seq::<Seq<char>>::empty());
    }
    String::from_str("unknown")
}

/// Offset basis of the 64-bit FNV-1a hash.
pub const FNV_OFFSET: u64 = 0xcbf29ce484222325;

/// Multiplicative prime of the 64-bit FNV-1a hash.
pub const FNV_PRIME: u64 = 0x100000001b3;

/// A value outside the range of any character, folded in between the path
/// and the key so that their concatenations cannot collide.
pub const FIELD_SEPARATOR: u64 = 0x110000;

/// One FNV-1a round: exclusive-or then wrapping multiplication.
pub open spec fn fnv_step(h: u64, x: u64) -> u64 {
    vstd::wrapping::u64_specs::wrapping_mul(h ^ x, FNV_PRIME)
}

/// FNV-1a over a character sequence, each character taken as its scalar value.
pub open spec fn fnv_chars(h: u64, s: Seq<char>) -> u64
    decreases s.len(),
{
    if s.len() == 0 {
        h
    } else {
        fnv_chars(fnv_step(h, s[0] as u64), s.drop_first())
    }
}

/// The identity hash folds in the path, the key, and, when present, the
/// file's size and modification time, so that the identity changes when
/// the underlying file does.
pub open spec fn identity_hash(
    path: Seq<char>,
    key: Seq<char>,
    size: Option<u64>,
    modified: Option<u64>,
) -> u64 {
    let h1 = fnv_chars(FNV_OFFSET, path);
    let h2 = fnv_chars(fnv_step(h1, FIELD_SEPARATOR), key);
    let h3 = match size {
        Some(n) => fnv_step(h2, n),
        None => h2,
    };
    match modified {
        Some(t) => fnv_step(h3, t),
        None => h3,
    }
}

/// The derived identity: the identity hash rendered in lowercase hex.
pub open spec fn identity_spec(
    path: Seq<char>,
    key: Seq<char>,
    size: Option<u64>,
    modified: Option<u64>,
) -> Seq<char> {
    u64_hex_spec(identity_hash(path, key, size, modified) as nat)
}

fn fnv_step_exec(h: u64, x: u64) -> (r: u64)
    ensures
        r == fnv_step(h, x),
{
    (h ^ x).wrapping_mul(FNV_PRIME)
}

fn fnv_str(h0: u64, s: &str) -> (h: u64)
    ensures
        h == fnv_chars(h0, s@),
{
    let n = s.unicode_len();
    let mut h = h0;
    let mut i: usize = 0;
    proof {
        assert(s@.skip(0) =~= s@);
    }
    while i < n
        invariant
            i <= n,
            n == s@.len(),
            fnv_chars(h, s@.skip(i as int)) == fnv_chars(h0, s@),
        decreases n - i,
    {
        let c = s.get_char(i);
        proof {
            assert(s@.skip(i as int)[0] == s@[i as int]);
            assert(s@.skip(i as int).drop_first() =~= s@.skip(i as int + 1));
        }
        h = fnv_step_exec(h, c as u64);
        i += 1;
    }
    proof {
        assert(s@.skip(n as int) =~= Seq::<char>::empty());
    }
    h
}

/// A deterministic identity for a (path, key) pair, folding in the file
/// stats when they are present.
pub fn generate_id(path: &str, key: &str, stat: &FileStat) -> (id: String)
    ensures
        id@ == identity_spec(path@, key@, stat.size, stat.modified_secs),
{
    let h1 = fnv_str(FNV_OFFSET, path);
    let h2 = fnv_str(fnv_step_exec(h1, FIELD_SEPARATOR), key);
    let h3 = match stat.size {
        Some(n) => fnv_step_exec(h2, n),
        None => h2,
    };
    let h4 = match stat.modified_secs {
        Some(t) => fnv_step_exec(h3, t),
        None => h3,
    };
    u64_to_hex(h4)
}

/// Builds the full descriptor for one manifest entry from its path, key and
/// the caller-gathered filesystem stats. Never fails: absent metadata
/// degrades to absent fields and a false accessibility flag.
pub fn create_database_info(path: &str, key: &str, stat: &FileStat) -> (info: DatabaseInfo)
    ensures
        info.id@ == identity_spec(path@, key@, stat.size, stat.modified_secs),
        info.path@ == path@,
        info.key@ == key@,
        info.cipher_compatibility == 3,
        info.db_type@ == db_type_spec(path@),
        info.filename@ == filename_spec(path@),
        info.size == stat.size,
        info.accessible == stat.exists,
        match stat.modified_secs {
            Some(t) => info.last_modified is Some && info.last_modified->0@ == u64_dec_spec(
                t as nat,
            ),
            None => info.last_modified is None,
        },
{
    let id = generate_id(path, key, stat);
    let filename = extract_filename(path);
    let db_type = extract_db_type(path);
    let last_modified = match stat.modified_secs {
        Some(t) => Some(u64_to_dec(t)),
        None => None,
    };
    DatabaseInfo {
        id,
        path: String::from_str(path),
        key: String::from_str(key),
        cipher_compatibility: 3,
        db_type,
        filename,
        size: stat.size,
        accessible: stat.exists,
        last_modified,
    }
}

} // verus!
