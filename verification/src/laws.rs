//! Parser laws: what parsing guarantees across whole manifests — a faithful
//! round trip for well-formed declarations, first-occurrence deduplication,
//! and that a key declaration without a pending path contributes nothing.
use vstd::prelude::*;

use crate::manifest::dedup_spec;
use crate::manifest::key_prefix;
use crate::manifest::manifest_seeds;
use crate::manifest::parse_lines_spec;
use crate::manifest::path_prefix;
use crate::manifest::step_emit;
use crate::manifest::step_pending;
use crate::text::extract_quoted_spec;
use crate::text::has_prefix;
use crate::text::trim_spec;

verus! {

proof fn lemma_marker_chars()
    ensures
        path_prefix().len() == 18,
        key_prefix().len() == 12,
        path_prefix()[0] == 's',
        key_prefix()[0] == 'P',
        forall|j: int| 0 <= j < 18 ==> path_prefix()[j] != '\'',
        forall|j: int| 0 <= j < 18 ==> path_prefix()[j] != '\n',
        forall|j: int| 0 <= j < 12 ==> key_prefix()[j] != '"',
        forall|j: int| 0 <= j < 12 ==> key_prefix()[j] != '\n',
{
    reveal_strlit("sqlcipher db path:");
    reveal_strlit("PRAGMA key =");
}

/// A key declaration with no pending path contributes nothing: a manifest
/// whose first line is a key declaration parses exactly as the manifest
/// without that line.
pub proof fn lemma_key_without_path_ignored(lines: Seq<Seq<char>>)
    requires
        lines.len() > 0,
        has_prefix(trim_spec(lines[0]), key_prefix()),
    ensures
        parse_lines_spec(lines, Seq::empty()) == parse_lines_spec(
            lines.drop_first(),
            Seq::empty(),
        ),
{
    lemma_marker_chars();
    let t = trim_spec(lines[0]);
    if has_prefix(t, path_prefix()) {
        assert(t.subrange(0, 18)[0] == t[0]);
        assert(t.subrange(0, 12)[0] == t[0]);
        assert(false);
    }
    assert(step_emit(Seq::empty(), lines[0]) is None);
    assert(step_pending(Seq::empty(), lines[0]) == Seq::<char>::empty());
}

/// Everything deduplication keeps comes from the input, carries a path not
/// yet seen, and no two kept pairs share a path.
pub proof fn lemma_dedup_sound(seeds: Seq<(Seq<char>, Seq<char>)>, seen: Set<Seq<char>>)
    ensures
        forall|a: int|
            0 <= a < dedup_spec(seeds, seen).len() ==> seeds.contains(
                #[trigger] dedup_spec(seeds, seen)[a],
            ) && !seen.contains(dedup_spec(seeds, seen)[a].0),
        forall|a: int, b: int|
            0 <= a < b < dedup_spec(seeds, seen).len() ==> (#[trigger] dedup_spec(
                seeds,
                seen,
            )[a]).0 != (#[trigger] dedup_spec(seeds, seen)[b]).0,
    decreases seeds.len(),
{
    if seeds.len() == 0 {
    } else if seen.contains(seeds[0].0) {
        lemma_dedup_sound(seeds.drop_first(), seen);
        let d = dedup_spec(seeds, seen);
        let dr = dedup_spec(seeds.drop_first(), seen);
        assert(d == dr);
        assert forall|a: int| 0 <= a < d.len() implies seeds.contains(#[trigger] d[a])
            && !seen.contains(d[a].0) by {
            assert(d[a] == dr[a]);
            assert(seeds.drop_first().contains(dr[a]));
            let i = choose|i: int|
                0 <= i < seeds.drop_first().len() && seeds.drop_first()[i] == dr[a];
            assert(seeds[i + 1] == d[a]);
        }
        assert forall|a: int, b: int| 0 <= a < b < d.len() implies (#[trigger] d[a]).0 != (
        #[trigger] d[b]).0 by {
            assert(d[a] == dr[a]);
            assert(d[b] == dr[b]);
        }
    } else {
        let seen2 = seen.insert(seeds[0].0);
        lemma_dedup_sound(seeds.drop_first(), seen2);
        let d = dedup_spec(seeds, seen);
        let dr = dedup_spec(seeds.drop_first(), seen2);
        assert(d == seq![seeds[0]] + dr);
        assert forall|a: int| 0 <= a < d.len() implies seeds.contains(#[trigger] d[a])
            && !seen.contains(d[a].0) by {
            if a == 0 {
                assert(d[0] == seeds[0]);
                assert(seeds[0] == seeds[0]);
            } else {
                assert(d[a] == dr[a - 1]);
                assert(seeds.drop_first().contains(dr[a - 1]));
                let i = choose|i: int|
                    0 <= i < seeds.drop_first().len() && seeds.drop_first()[i] == dr[a - 1];
                assert(seeds[i + 1] == d[a]);
                assert(!seen2.contains(dr[a - 1].0));
            }
        }
        assert forall|a: int, b: int| 0 <= a < b < d.len() implies (#[trigger] d[a]).0 != (
        #[trigger] d[b]).0 by {
            if a == 0 {
                assert(d[b] == dr[b - 1]);
                assert(!seen2.contains(dr[b - 1].0));
                assert(seen2.contains(seeds[0].0));
            } else {
                assert(d[a] == dr[a - 1]);
                assert(d[b] == dr[b - 1]);
            }
        }
    }
}

/// Of several pairs declaring one path, deduplication keeps the first: the
/// first pair for each not-yet-seen path is in the result.
pub proof fn lemma_dedup_keeps_first(
    seeds: Seq<(Seq<char>, Seq<char>)>,
    seen: Set<Seq<char>>,
    i: int,
)
    requires
        0 <= i < seeds.len(),
        !seen.contains(seeds[i].0),
        forall|j: int| 0 <= j < i ==> (#[trigger] seeds[j]).0 != seeds[i].0,
    ensures
        dedup_spec(seeds, seen).contains(seeds[i]),
    decreases seeds.len(),
{
    let d = dedup_spec(seeds, seen);
    if i == 0 {
        assert(d[0] == seeds[0]);
    } else if seen.contains(seeds[0].0) {
        assert(seeds[0].0 != seeds[i].0);
        lemma_dedup_keeps_first(seeds.drop_first(), seen, i - 1);
        let dr = dedup_spec(seeds.drop_first(), seen);
        let k = choose|k: int| 0 <= k < dr.len() && dr[k] == seeds.drop_first()[i - 1];
        assert(d == dr);
        assert(d[k] == seeds[i]);
    } else {
        assert(seeds[0].0 != seeds[i].0);
        let seen2 = seen.insert(seeds[0].0);
        lemma_dedup_keeps_first(seeds.drop_first(), seen2, i - 1);
        let dr = dedup_spec(seeds.drop_first(), seen2);
        let k = choose|k: int| 0 <= k < dr.len() && dr[k] == seeds.drop_first()[i - 1];
        assert(d == seq![seeds[0]] + dr);
        assert(d[k + 1] == seeds[i]);
    }
}

/// A manifest line declaring a path: the marker followed by a space and
/// the path in single quotes.
pub open spec fn path_line(p: Seq<char>) -> Seq<char> {
    path_prefix() + seq![' ', '\''] + p + seq!['\'']
}

/// A manifest line declaring a key: the marker followed by a space and the
/// key in double quotes.
pub open spec fn key_line(k: Seq<char>) -> Seq<char> {
    key_prefix() + seq![' ', '"'] + k + seq!['"']
}

/// A well-formed declaration: a nonempty path free of single quotes and
/// line breaks, and a key free of double quotes and line breaks.
pub open spec fn wf_pair(pr: (Seq<char>, Seq<char>)) -> bool {
    pr.0.len() > 0 && (forall|j: int| 0 <= j < pr.0.len() ==> pr.0[j] != '\'' && pr.0[j] != '\n')
        && (forall|j: int| 0 <= j < pr.1.len() ==> pr.1[j] != '"' && pr.1[j] != '\n')
}

/// The manifest text declaring the given pairs in order: each path line
/// immediately followed by its key line.
pub open spec fn render_manifest(pairs: Seq<(Seq<char>, Seq<char>)>) -> Seq<char>
    decreases pairs.len(),
{
    if pairs.len() == 0 {
        Seq::empty()
    } else {
        path_line(pairs[0].0) + seq!['\n'] + key_line(pairs[0].1) + seq!['\n'] + render_manifest(
            pairs.drop_first(),
        )
    }
}

proof fn lemma_path_line_parse(pending: Seq<char>, p: Seq<char>)
    requires
        p.len() > 0,
        forall|j: int| 0 <= j < p.len() ==> p[j] != '\'' && p[j] != '\n',
    ensures
        step_pending(pending, path_line(p)) == p,
        step_emit(pending, path_line(p)) is None,
        forall|j: int| 0 <= j < path_line(p).len() ==> path_line(p)[j] != '\n',
{
    lemma_marker_chars();
    let line = path_line(p);
    assert(line.len() == 21 + p.len());
    assert forall|j: int| 0 <= j < line.len() implies line[j] != '\n' by {
        if j < 18 {
            assert(line[j] == path_prefix()[j]);
        } else if j == 18 {
            assert(line[j] == ' ');
        } else if j == 19 || j == line.len() - 1 {
            assert(line[j] == '\'');
        } else {
            assert(line[j] == p[j - 20]);
        }
    }
    // trimming is the identity: the ends are not blank
    assert(line[0] == 's');
    assert(line[line.len() - 1] == '\'');
    assert(trim_spec(line) == line);
    // the line is a path declaration and not a key declaration
    assert(line.subrange(0, 18) =~= path_prefix());
    assert(has_prefix(line, path_prefix()));
    if has_prefix(line, key_prefix()) {
        assert(line.subrange(0, 12)[0] == line[0]);
        assert(false);
    }
    // the quotes stand exactly after the marker's space and at the end
    crate::text::lemma_first_ix(line, '\'');
    let fi = crate::text::first_ix(line, '\'') as int;
    assert(line[19] == '\'');
    if fi < 19 {
        if fi < 18 {
            assert(line[fi] == path_prefix()[fi]);
        } else {
            assert(line[fi] == ' ');
        }
        assert(false);
    }
    if fi > 19 {
        assert(line[19] != '\'');
        assert(false);
    }
    crate::text::lemma_last_ix(line, '\'');
    let li = crate::text::last_ix(line, '\'');
    assert(line[line.len() - 1] == '\'');
    if li < line.len() - 1 {
        assert(false);
    }
    assert(fi == 19 && li == line.len() - 1);
    assert(line.subrange(20, line.len() - 1) =~= p);
    assert(extract_quoted_spec(line, '\'') == Some(p));
}

proof fn lemma_key_line_parse(pending: Seq<char>, k: Seq<char>)
    requires
        pending.len() > 0,
        forall|j: int| 0 <= j < k.len() ==> k[j] != '"' && k[j] != '\n',
    ensures
        step_pending(pending, key_line(k)) == Seq::<char>::empty(),
        step_emit(pending, key_line(k)) == Some((pending, k)),
        forall|j: int| 0 <= j < key_line(k).len() ==> key_line(k)[j] != '\n',
{
    lemma_marker_chars();
    let line = key_line(k);
    assert(line.len() == 15 + k.len());
    assert forall|j: int| 0 <= j < line.len() implies line[j] != '\n' by {
        if j < 12 {
            assert(line[j] == key_prefix()[j]);
        } else if j == 12 {
            assert(line[j] == ' ');
        } else if j == 13 || j == line.len() - 1 {
            assert(line[j] == '"');
        } else {
            assert(line[j] == k[j - 14]);
        }
    }
    assert(line[0] == 'P');
    assert(line[line.len() - 1] == '"');
    assert(trim_spec(line) == line);
    assert(line.subrange(0, 12) =~= key_prefix());
    assert(has_prefix(line, key_prefix()));
    if has_prefix(line, path_prefix()) {
        assert(line.subrange(0, 18)[0] == line[0]);
        assert(false);
    }
    crate::text::lemma_first_ix(line, '"');
    let fi = crate::text::first_ix(line, '"') as int;
    assert(line[13] == '"');
    if fi < 13 {
        if fi < 12 {
            assert(line[fi] == key_prefix()[fi]);
        } else {
            assert(line[fi] == ' ');
        }
        assert(false);
    }
    if fi > 13 {
        assert(line[13] != '"');
        assert(false);
    }
    crate::text::lemma_last_ix(line, '"');
    let li = crate::text::last_ix(line, '"');
    assert(line[line.len() - 1] == '"');
    if li < line.len() - 1 {
        assert(false);
    }
    assert(fi == 13 && li == line.len() - 1);
    assert(line.subrange(14, line.len() - 1) =~= k);
    assert(extract_quoted_spec(line, '"') == Some(k));
}

proof fn lemma_split_line_off(l: Seq<char>, rest: Seq<char>)
    requires
        forall|j: int| 0 <= j < l.len() ==> l[j] != '\n',
    ensures
        crate::text::split_char_spec(l + seq!['\n'] + rest, '\n') == seq![l]
            + crate::text::split_char_spec(rest, '\n'),
{
    let s = l + seq!['\n'] + rest;
    crate::text::lemma_first_ix(s, '\n');
    let fi = crate::text::first_ix(s, '\n') as int;
    assert(s[l.len() as int] == '\n');
    if fi < l.len() {
        assert(s[fi] == l[fi]);
        assert(false);
    }
    if fi > l.len() {
        assert(s[l.len() as int] != '\n');
        assert(false);
    }
    assert(fi == l.len() && fi < s.len());
    assert(s.subrange(0, fi) =~= l);
    assert(s.subrange(fi + 1, s.len() as int) =~= rest);
}

proof fn lemma_parse_render(pairs: Seq<(Seq<char>, Seq<char>)>)
    requires
        forall|i: int| 0 <= i < pairs.len() ==> wf_pair(#[trigger] pairs[i]),
    ensures
        parse_lines_spec(
            crate::text::split_char_spec(render_manifest(pairs), '\n'),
            Seq::empty(),
        ) == pairs,
    decreases pairs.len(),
{
    if pairs.len() == 0 {
        assert(crate::text::split_char_spec(Seq::<char>::empty(), '\n')
            =~= Seq::<Seq<char>>::empty());
        assert(pairs =~= Seq::<(Seq<char>, Seq<char>)>::empty());
    } else {
        let p = pairs[0].0;
        let k = pairs[0].1;
        assert(wf_pair(pairs[0]));
        let pl = path_line(p);
        let kl = key_line(k);
        let tail = render_manifest(pairs.drop_first());
        lemma_path_line_parse(Seq::empty(), p);
        lemma_key_line_parse(p, k);
        let whole = render_manifest(pairs);
        assert(whole =~= pl + seq!['\n'] + (kl + seq!['\n'] + tail));
        lemma_split_line_off(pl, kl + seq!['\n'] + tail);
        assert(kl + seq!['\n'] + tail =~= kl + seq!['\n'] + tail);
        lemma_split_line_off(kl, tail);
        let lines_tail = crate::text::split_char_spec(tail, '\n');
        let lines = crate::text::split_char_spec(whole, '\n');
        assert(lines == seq![pl] + (seq![kl] + lines_tail));
        assert(lines.len() == 2 + lines_tail.len());
        assert(lines[0] == pl);
        assert(lines[1] == kl);
        // first line: the path becomes pending, nothing is emitted
        assert(lines.drop_first() =~= seq![kl] + lines_tail);
        assert(parse_lines_spec(lines, Seq::empty()) == parse_lines_spec(
            lines.drop_first(),
            p,
        ));
        // second line: the pair is emitted, the pending path is consumed
        assert(lines.drop_first().drop_first() =~= lines_tail);
        assert(lines.drop_first()[0] == kl);
        assert(parse_lines_spec(lines.drop_first(), p) == seq![(p, k)] + parse_lines_spec(
            lines_tail,
            Seq::empty(),
        ));
        lemma_parse_render(pairs.drop_first());
        assert(seq![(p, k)] + pairs.drop_first() =~= pairs);
    }
}

proof fn lemma_dedup_distinct_identity(seeds: Seq<(Seq<char>, Seq<char>)>, seen: Set<Seq<char>>)
    requires
        forall|i: int, j: int|
            0 <= i < j < seeds.len() ==> (#[trigger] seeds[i]).0 != (#[trigger] seeds[j]).0,
        forall|i: int| 0 <= i < seeds.len() ==> !seen.contains((#[trigger] seeds[i]).0),
    ensures
        dedup_spec(seeds, seen) == seeds,
    decreases seeds.len(),
{
    if seeds.len() == 0 {
        assert(dedup_spec(seeds, seen) =~= seeds);
    } else {
        let seen2 = seen.insert(seeds[0].0);
        assert forall|i: int|
            0 <= i < seeds.drop_first().len() implies !seen2.contains(
            (#[trigger] seeds.drop_first()[i]).0) by {
            assert(seeds.drop_first()[i] == seeds[i + 1]);
            assert(seeds[0].0 != seeds[i + 1].0);
        }
        assert forall|i: int, j: int|
            0 <= i < j < seeds.drop_first().len() implies (#[trigger] seeds.drop_first()[i]).0 != (
        #[trigger] seeds.drop_first()[j]).0 by {
            assert(seeds.drop_first()[i] == seeds[i + 1]);
            assert(seeds.drop_first()[j] == seeds[j + 1]);
        }
        lemma_dedup_distinct_identity(seeds.drop_first(), seen2);
        assert(dedup_spec(seeds, seen) == seq![seeds[0]] + seeds.drop_first());
        assert(seq![seeds[0]] + seeds.drop_first() =~= seeds);
    }
}

/// The parser round trip: a manifest of N well-formed path declarations,
/// each immediately followed by its key declaration, with no duplicate
/// paths, parses to exactly those N (path, key) pairs in declaration order.
pub proof fn lemma_parse_round_trip(pairs: Seq<(Seq<char>, Seq<char>)>)
    requires
        forall|i: int| 0 <= i < pairs.len() ==> wf_pair(#[trigger] pairs[i]),
        forall|i: int, j: int|
            0 <= i < j < pairs.len() ==> (#[trigger] pairs[i]).0 != (#[trigger] pairs[j]).0,
    ensures
        manifest_seeds(render_manifest(pairs)) == pairs,
{
    lemma_parse_render(pairs);
    lemma_dedup_distinct_identity(pairs, Set::empty());
}

} // verus!

