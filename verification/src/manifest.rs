//! Manifest parsing: turns credentials-manifest text into a deduplicated
//! ordered list of (database path, decryption key) pairs.
//!
//! A line whose trimmed form starts with the path prefix and carries a
//! single-quoted literal sets the pending path; a line starting with the key
//! prefix and carrying a double-quoted literal emits one (path, key) pair if
//! a pending path exists, consuming it. All other lines are ignored. After
//! the scan, pairs are deduplicated by path, keeping the first occurrence.
use vstd::prelude::*;

use crate::text::extract_quoted;
use crate::text::extract_quoted_spec;
use crate::text::has_prefix;
use crate::text::split_char;
use crate::text::split_char_spec;
use crate::text::str_has_prefix;
use crate::text::trim;
use crate::text::trim_spec;

verus! {

/// One deduplicated manifest declaration: a database path and its key.
#[derive(Debug, Clone, PartialEq)]
pub struct ManifestEntry {
    pub path: String,
    pub key: String,
}

pub open spec fn entry_pair(e: ManifestEntry) -> (Seq<char>, Seq<char>) {
    (e.path@, e.key@)
}

pub open spec fn entries_view(v: Seq<ManifestEntry>) -> Seq<(Seq<char>, Seq<char>)> {
    v.map_values(|e: ManifestEntry| entry_pair(e))
}

/// The marker that introduces a path declaration.
pub open spec fn path_prefix() -> Seq<char> {
    "sqlcipher db path:"@
}

/// The marker that introduces a key declaration.
pub open spec fn key_prefix() -> Seq<char> {
    "PRAGMA key ="@
}

/// The pending path after one line is processed; an empty pending path
/// means that no path declaration is waiting for its key.
pub open spec fn step_pending(pending: Seq<char>, line: Seq<char>) -> Seq<char> {
    let t = trim_spec(line);
    if has_prefix(t, path_prefix()) {
        match extract_quoted_spec(t, '\'') {
            Some(p) => p,
            None => pending,
        }
    } else if has_prefix(t, key_prefix()) && pending.len() > 0 {
        match extract_quoted_spec(t, '"') {
            Some(_) => Seq::empty(),
            None => pending,
        }
    } else {
        pending
    }
}

/// The (path, key) pair emitted by one line, if any.
pub open spec fn step_emit(pending: Seq<char>, line: Seq<char>) -> Option<(Seq<char>, Seq<char>)> {
    let t = trim_spec(line);
    if has_prefix(t, path_prefix()) {
        None
    } else if has_prefix(t, key_prefix()) && pending.len() > 0 {
        match extract_quoted_spec(t, '"') {
            Some(k) => Some((pending, k)),
            None => None,
        }
    } else {
        None
    }
}

/// All (path, key) pairs emitted by a sequence of lines, in order,
/// before deduplication.
pub open spec fn parse_lines_spec(lines: Seq<Seq<char>>, pending: Seq<char>) -> Seq<
    (Seq<char>, Seq<char>),
>
    decreases lines.len(),
{
    if lines.len() == 0 {
        Seq::empty()
    } else {
        let rest = parse_lines_spec(lines.drop_first(), step_pending(pending, lines[0]));
        match step_emit(pending, lines[0]) {
            Some(pk) => seq![pk] + rest,
            None => rest,
        }
    }
}

/// Deduplication by path, keeping the first occurrence; `seen` holds the
/// paths already kept.
pub open spec fn dedup_spec(seeds: Seq<(Seq<char>, Seq<char>)>, seen: Set<Seq<char>>) -> Seq<
    (Seq<char>, Seq<char>),
>
    decreases seeds.len(),
{
    if seeds.len() == 0 {
        Seq::empty()
    } else if seen.contains(seeds[0].0) {
        dedup_spec(seeds.drop_first(), seen)
    } else {
        seq![seeds[0]] + dedup_spec(seeds.drop_first(), seen.insert(seeds[0].0))
    }
}

/// What parsing a whole manifest yields: the emitted pairs of its lines,
/// deduplicated by path keeping the first occurrence.
pub open spec fn manifest_seeds(content: Seq<char>) -> Seq<(Seq<char>, Seq<char>)> {
    dedup_spec(parse_lines_spec(split_char_spec(content, '\n'), Seq::empty()), Set::empty())
}

fn parse_raw_seeds(content: &str) -> (r: Vec<ManifestEntry>)
    ensures
        entries_view(r@) == parse_lines_spec(split_char_spec(content@, '\n'), Seq::empty()),
{
    let lines = split_char(content, '\n');
    proof {
        assert(lines@.map_values(|t: &str| t@) == split_char_spec(content@, '\n'));
    }
    let ghost lseq = split_char_spec(content@, '\n');
    let mut seeds: Vec<ManifestEntry> = Vec::new();
    let mut pending = String::new();
    let mut i: usize = 0;
    proof {
        assert(lseq.skip(0) =~= lseq);
        assert(entries_view(seeds@) =~= Seq::<(Seq<char>, Seq<char>)>::empty());
        assert(entries_view(seeds@) + parse_lines_spec(lseq, pending@) =~= parse_lines_spec(
            lseq,
            Seq::empty(),
        ));
    }
    while i < lines.len()
        invariant
            i <= lines.len(),
            lines@.map_values(|t: &str| t@) == lseq,
            entries_view(seeds@) + parse_lines_spec(lseq.skip(i as int), pending@)
                == parse_lines_spec(lseq, Seq::empty()),
        decreases lines.len() - i,
    {
        let ghost prev_pending = pending@;
        let ghost prev_entries = entries_view(seeds@);
        proof {
            assert(lseq.skip(i as int).len() > 0);
            assert(lseq.skip(i as int)[0] == lseq[i as int]);
            assert(lseq.skip(i as int).drop_first() =~= lseq.skip(i as int + 1));
            assert(lines@[i as int]@ == lseq[i as int]);
        }
        let line = trim(lines[i]);
        if str_has_prefix(line, "sqlcipher db path:") {
            match extract_quoted(line, '\'') {
                Some(p) => {
                    pending = p;
                },
                None => {},
            }
            proof {
                assert(step_emit(prev_pending, lseq[i as int]) is None);
                assert(pending@ == step_pending(prev_pending, lseq[i as int]));
            }
        } else if str_has_prefix(line, "PRAGMA key =") && !pending.as_str().is_empty() {
            match extract_quoted(line, '"') {
                Some(k) => {
                    let entry = ManifestEntry { path: pending, key: k };
                    proof {
                        assert(entry_pair(entry) == (prev_pending, entry.key@));
                    }
                    seeds.push(entry);
                    pending = String::new();
                    proof {
                        assert(entries_view(seeds@) =~= prev_entries.push(
                            (prev_pending, seeds@[seeds@.len() - 1].key@),
                        ));
                        assert(step_emit(prev_pending, lseq[i as int]) == Some(
                            (prev_pending, seeds@[seeds@.len() - 1].key@),
                        ));
                        assert(pending@ =~= step_pending(prev_pending, lseq[i as int]));
                    }
                },
                None => {
                    proof {
                        assert(step_emit(prev_pending, lseq[i as int]) is None);
                        assert(pending@ == step_pending(prev_pending, lseq[i as int]));
                    }
                },
            }
        } else {
            proof {
                assert(step_emit(prev_pending, lseq[i as int]) is None);
                assert(pending@ == step_pending(prev_pending, lseq[i as int]));
            }
        }
        proof {
            let em = step_emit(prev_pending, lseq[i as int]);
            let rest = parse_lines_spec(lseq.skip(i as int + 1), pending@);
            assert(parse_lines_spec(lseq.skip(i as int), prev_pending) == match em {
                Some(pk) => seq![pk] + rest,
                None => rest,
            });
            if em is Some {
                assert(entries_view(seeds@) =~= prev_entries.push(em->0));
                assert(prev_entries + (seq![em->0] + rest) =~= entries_view(seeds@) + rest);
            }
        }
        i += 1;
    }
    proof {
        assert(lseq.skip(i as int) =~= Seq::<Seq<char>>::empty());
        assert(entries_view(seeds@) + Seq::<(Seq<char>, Seq<char>)>::empty() =~= entries_view(
            seeds@,
        ));
    }
    seeds
}

/// Parse manifest text into deduplicated (path, key) entries: path
/// declarations set a pending path, key declarations consume it, later
/// duplicate paths are dropped.
pub fn parse_keys_content(content: &str) -> (r: Vec<ManifestEntry>)
    ensures
        entries_view(r@) == manifest_seeds(content@),
{
    let seeds = parse_raw_seeds(content);
    let ghost seedsv = entries_view(seeds@);
    let mut out: Vec<ManifestEntry> = Vec::new();
    let mut seen: Vec<String> = Vec::new();
    let ghost seen_set = Set::<Seq<char>>::empty();
    let mut j: usize = 0;
    proof {
        assert(seedsv.skip(0) =~= seedsv);
        assert(entries_view(out@) =~= Seq::<(Seq<char>, Seq<char>)>::empty());
        assert(entries_view(out@) + dedup_spec(seedsv, seen_set) =~= dedup_spec(
            seedsv,
            Set::empty(),
        ));
    }
    while j < seeds.len()
        invariant
            j <= seeds.len(),
            seedsv == entries_view(seeds@),
            forall|p: Seq<char>|
                seen_set.contains(p) <==> exists|k: int| 0 <= k < seen@.len() && seen@[k]@ == p,
            entries_view(out@) + dedup_spec(seedsv.skip(j as int), seen_set) == dedup_spec(
                seedsv,
                Set::empty(),
            ),
        decreases seeds.len() - j,
    {
        let ghost prev_out = entries_view(out@);
        let ghost prev_seen = seen_set;
        proof {
            assert(seedsv.skip(j as int).len() > 0);
            assert(seedsv.skip(j as int)[0] == seedsv[j as int]);
            assert(seedsv.skip(j as int).drop_first() =~= seedsv.skip(j as int + 1));
            assert(seedsv[j as int] == entry_pair(seeds@[j as int]));
        }
        let mut found = false;
        let mut k: usize = 0;
        while k < seen.len()
            invariant
                k <= seen.len(),
                seedsv == entries_view(seeds@),
                j < seeds@.len(),
                seedsv[j as int] == entry_pair(seeds@[j as int]),
                found <==> exists|m: int| 0 <= m < k && seen@[m]@ == seeds@[j as int].path@,
            decreases seen.len() - k,
        {
            if seen[k].eq(&seeds[j].path) {
                found = true;
            }
            k += 1;
        }
        proof {
            assert(found <==> prev_seen.contains(seedsv[j as int].0));
        }
        if !found {
            let ghost prev_seen_v = seen@;
            out.push(
                ManifestEntry { path: seeds[j].path.clone(), key: seeds[j].key.clone() },
            );
            seen.push(seeds[j].path.clone());
            proof {
                seen_set = prev_seen.insert(seedsv[j as int].0);
                assert(entries_view(out@) =~= prev_out.push(seedsv[j as int]));
                assert(seen@ =~= prev_seen_v.push(seen@[seen@.len() - 1]));
                assert(seen@[seen@.len() - 1]@ == seedsv[j as int].0);
                assert forall|p: Seq<char>|
                    seen_set.contains(p) <==> exists|m: int|
                        0 <= m < seen@.len() && seen@[m]@ == p by {
                    if seen_set.contains(p) {
                        if p == seedsv[j as int].0 {
                            assert(seen@[seen@.len() - 1]@ == p);
                        } else {
                            assert(prev_seen.contains(p));
                            let m = choose|m: int|
                                0 <= m < prev_seen_v.len() && #[trigger] prev_seen_v[m]@ == p;
                            assert(seen@[m]@ == p);
                        }
                    }
                    if exists|m: int| 0 <= m < seen@.len() && seen@[m]@ == p {
                        let m = choose|m: int| 0 <= m < seen@.len() && #[trigger] seen@[m]@ == p;
                        if m < seen@.len() - 1 {
                            assert(prev_seen_v[m]@ == p);
                            assert(prev_seen.contains(p));
                        } else {
                            assert(p == seedsv[j as int].0);
                        }
                        assert(seen_set.contains(p));
                    }
                }
                assert(dedup_spec(seedsv.skip(j as int), prev_seen) == seq![seedsv[j as int]]
                    + dedup_spec(seedsv.skip(j as int + 1), seen_set));
                assert(prev_out + (seq![seedsv[j as int]] + dedup_spec(
                    seedsv.skip(j as int + 1),
                    seen_set,
                )) =~= entries_view(out@) + dedup_spec(seedsv.skip(j as int + 1), seen_set));
            }
        } else {
            proof {
                assert(dedup_spec(seedsv.skip(j as int), prev_seen) == dedup_spec(
                    seedsv.skip(j as int + 1),
                    seen_set,
                ));
            }
        }
        j += 1;
    }
    proof {
        assert(seedsv.skip(j as int) =~= Seq::<(Seq<char>, Seq<char>)>::empty());
        assert(entries_view(out@) + Seq::<(Seq<char>, Seq<char>)>::empty() =~= entries_view(out@));
    }
    out
}

} // verus!
