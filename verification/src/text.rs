//! Character-level string utilities: prefix tests, searching, trimming,
//! splitting, and rendering integers as decimal or hexadecimal text.
use vstd::prelude::*;

verus! {

/// Characters stripped from both ends of a manifest line.
pub open spec fn is_blank(c: char) -> bool {
    c == ' ' || c == '\t' || c == '\r' || c == '\n'
}

pub fn blank_char(c: char) -> (r: bool)
    ensures
        r == is_blank(c),
{
    c == ' ' || c == '\t' || c == '\r' || c == '\n'
}

pub open spec fn has_prefix(s: Seq<char>, p: Seq<char>) -> bool {
    p.len() <= s.len() && s.subrange(0, p.len() as int) == p
}

pub open spec fn has_suffix(s: Seq<char>, p: Seq<char>) -> bool {
    p.len() <= s.len() && s.subrange(s.len() - p.len(), s.len() as int) == p
}

pub fn str_has_prefix(s: &str, p: &str) -> (r: bool)
    ensures
        r == has_prefix(s@, p@),
{
    let n = s.unicode_len();
    let m = p.unicode_len();
    if m > n {
        return false;
    }
    let mut i: usize = 0;
    while i < m
        invariant
            i <= m,
            m <= n,
            m == p@.len(),
            n == s@.len(),
            forall|j: int| 0 <= j < i ==> s@[j] == p@[j],
        decreases m - i,
    {
        if s.get_char(i) != p.get_char(i) {
            proof {
                if has_prefix(s@, p@) {
                    assert(s@.subrange(0, m as int)[i as int] == p@[i as int]);
                }
            }
            return false;
        }
        i += 1;
    }
    proof {
        assert(s@.subrange(0, m as int) =~= p@);
    }
    true
}

pub fn str_has_suffix(s: &str, p: &str) -> (r: bool)
    ensures
        r == has_suffix(s@, p@),
{
    let n = s.unicode_len();
    let m = p.unicode_len();
    if m > n {
        return false;
    }
    let base = n - m;
    let mut i: usize = 0;
    while i < m
        invariant
            i <= m,
            m <= n,
            base == n - m,
            m == p@.len(),
            n == s@.len(),
            forall|j: int| 0 <= j < i ==> s@[base + j] == p@[j],
        decreases m - i,
    {
        if s.get_char(base + i) != p.get_char(i) {
            proof {
                if has_suffix(s@, p@) {
                    assert(s@.subrange(n - m, n as int)[i as int] == p@[i as int]);
                }
            }
            return false;
        }
        i += 1;
    }
    proof {
        assert(s@.subrange(n - m, n as int) =~= p@);
    }
    true
}

pub fn str_eq(a: &str, b: &str) -> (r: bool)
    ensures
        r == (a@ == b@),
{
    let n = a.unicode_len();
    let m = b.unicode_len();
    if n != m {
        proof {
            if a@ == b@ {
                assert(a@.len() == b@.len());
            }
        }
        return false;
    }
    let mut i: usize = 0;
    while i < n
        invariant
            i <= n,
            n == a@.len(),
            n == b@.len(),
            forall|j: int| 0 <= j < i ==> a@[j] == b@[j],
        decreases n - i,
    {
        if a.get_char(i) != b.get_char(i) {
            proof {
                if a@ == b@ {
                    assert(a@[i as int] == b@[i as int]);
                }
            }
            return false;
        }
        i += 1;
    }
    proof {
        assert(a@ =~= b@);
    }
    true
}

/// Index of the first occurrence of `c` in `s`, or `s.len()` if absent.
pub open spec fn first_ix(s: Seq<char>, c: char) -> nat
    decreases s.len(),
{
    if s.len() == 0 {
        0
    } else if s[0] == c {
        0
    } else {
        1 + first_ix(s.drop_first(), c)
    }
}

pub proof fn lemma_first_ix(s: Seq<char>, c: char)
    ensures
        first_ix(s, c) <= s.len(),
        forall|j: int| 0 <= j < first_ix(s, c) ==> s[j] != c,
        first_ix(s, c) < s.len() ==> s[first_ix(s, c) as int] == c,
    decreases s.len(),
{
    if s.len() == 0 {
    } else if s[0] == c {
    } else {
        lemma_first_ix(s.drop_first(), c);
        assert forall|j: int| 0 <= j < first_ix(s, c) implies s[j] != c by {
            if j > 0 {
                assert(s.drop_first()[j - 1] == s[j]);
            }
        }
        if first_ix(s, c) < s.len() {
            assert(s.drop_first()[first_ix(s, c) - 1] == s[first_ix(s, c) as int]);
        }
    }
}

pub fn find_char(s: &str, c: char) -> (r: usize)
    ensures
        r == first_ix(s@, c),
{
    let n = s.unicode_len();
    let mut i: usize = 0;
    while i < n
        invariant
            i <= n,
            n == s@.len(),
            forall|j: int| 0 <= j < i ==> s@[j] != c,
        decreases n - i,
    {
        if s.get_char(i) == c {
            proof {
                lemma_first_ix(s@, c);
                if first_ix(s@, c) < i as nat {
                    assert(s@[first_ix(s@, c) as int] == c);
                }
            }
            return i;
        }
        i += 1;
    }
    proof {
        lemma_first_ix(s@, c);
    }
    n
}

/// Index of the last occurrence of `c` in `s`, or `-1` if absent.
pub open spec fn last_ix(s: Seq<char>, c: char) -> int
    decreases s.len(),
{
    if s.len() == 0 {
        -1
    } else if s[s.len() - 1] == c {
        s.len() - 1
    } else {
        last_ix(s.drop_last(), c)
    }
}

pub proof fn lemma_last_ix(s: Seq<char>, c: char)
    ensures
        -1 <= last_ix(s, c) < s.len(),
        forall|j: int| last_ix(s, c) < j < s.len() ==> s[j] != c,
        last_ix(s, c) >= 0 ==> s[last_ix(s, c)] == c,
    decreases s.len(),
{
    if s.len() == 0 {
    } else if s[s.len() - 1] == c {
    } else {
        lemma_last_ix(s.drop_last(), c);
        assert forall|j: int| last_ix(s, c) < j < s.len() implies s[j] != c by {
            if j < s.len() - 1 {
                assert(s.drop_last()[j] == s[j]);
            }
        }
        if last_ix(s, c) >= 0 {
            assert(s.drop_last()[last_ix(s, c)] == s[last_ix(s, c)]);
        }
    }
}

pub fn rfind_char(s: &str, c: char) -> (r: Option<usize>)
    ensures
        match r {
            Some(k) => k as int == last_ix(s@, c),
            None => last_ix(s@, c) == -1,
        },
{
    let n = s.unicode_len();
    let mut i: usize = n;
    while i > 0
        invariant
            i <= n,
            n == s@.len(),
            forall|j: int| i <= j < n ==> s@[j] != c,
        decreases i,
    {
        i -= 1;
        if s.get_char(i) == c {
            proof {
                lemma_last_ix(s@, c);
                if last_ix(s@, c) > i as int {
                    assert(s@[last_ix(s@, c)] == c);
                }
            }
            return Some(i);
        }
    }
    proof {
        lemma_last_ix(s@, c);
        if last_ix(s@, c) >= 0 {
            assert(s@[last_ix(s@, c)] == c);
        }
    }
    None
}

/// The text strictly between the first and last occurrence of `q`,
/// present only when those are two distinct positions.
pub open spec fn extract_quoted_spec(line: Seq<char>, q: char) -> Option<Seq<char>> {
    let i = first_ix(line, q) as int;
    let j = last_ix(line, q);
    if i < j {
        Some(line.subrange(i + 1, j))
    } else {
        None
    }
}

pub fn extract_quoted(line: &str, q: char) -> (r: Option<String>)
    ensures
        match r {
            Some(p) => extract_quoted_spec(line@, q) == Some(p@),
            None => extract_quoted_spec(line@, q) is None,
        },
{
    let i = find_char(line, q);
    match rfind_char(line, q) {
        None => {
            proof {
                lemma_first_ix(line@, q);
            }
            None
        },
        Some(j) => {
            if i < j {
                proof {
                    lemma_last_ix(line@, q);
                }
                let piece = line.substring_char(i + 1, j);
                Some(String::from_str(piece))
            } else {
                None
            }
        },
    }
}

pub open spec fn trim_front_spec(s: Seq<char>) -> Seq<char>
    decreases s.len(),
{
    if s.len() > 0 && is_blank(s[0]) {
        trim_front_spec(s.drop_first())
    } else {
        s
    }
}

pub open spec fn trim_back_spec(s: Seq<char>) -> Seq<char>
    decreases s.len(),
{
    if s.len() > 0 && is_blank(s[s.len() - 1]) {
        trim_back_spec(s.drop_last())
    } else {
        s
    }
}

/// `s` with blank characters removed from both ends.
pub open spec fn trim_spec(s: Seq<char>) -> Seq<char> {
    trim_back_spec(trim_front_spec(s))
}

fn trim_front(s: &str) -> (r: &str)
    ensures
        r@ == trim_front_spec(s@),
    decreases s@.len(),
{
    let n = s.unicode_len();
    if n > 0 {
        let c = s.get_char(0);
        if blank_char(c) {
            let rest = s.substring_char(1, n);
            proof {
                assert(rest@ =~= s@.drop_first());
            }
            return trim_front(rest);
        }
    }
    s
}

fn trim_back(s: &str) -> (r: &str)
    ensures
        r@ == trim_back_spec(s@),
    decreases s@.len(),
{
    let n = s.unicode_len();
    if n > 0 {
        let c = s.get_char(n - 1);
        if blank_char(c) {
            let rest = s.substring_char(0, n - 1);
            proof {
                assert(rest@ =~= s@.drop_last());
            }
            return trim_back(rest);
        }
    }
    s
}

pub fn trim(s: &str) -> (r: &str)
    ensures
        r@ == trim_spec(s@),
{
    trim_back(trim_front(s))
}

/// Split at each occurrence of `c`; an empty input yields no pieces,
/// and a trailing separator yields a final empty piece.
pub open spec fn split_char_spec(s: Seq<char>, c: char) -> Seq<Seq<char>>
    decreases s.len(),
    via split_char_spec_decreases
{
    if s.len() == 0 {
        Seq::empty()
    } else {
        let k = first_ix(s, c) as int;
        if k == s.len() {
            seq![s]
        } else {
            seq![s.subrange(0, k)] + split_char_spec(s.subrange(k + 1, s.len() as int), c)
        }
    }
}

#[via_fn]
proof fn split_char_spec_decreases(s: Seq<char>, c: char) {
    lemma_first_ix(s, c);
}

pub fn split_char<'a>(s: &'a str, c: char) -> (r: Vec<&'a str>)
    ensures
        r@.map_values(|t: &str| t@) == split_char_spec(s@, c),
{
    let mut out: Vec<&str> = Vec::new();
    let mut rest: &str = s;
    let mut n = rest.unicode_len();
    while n > 0
        invariant
            n == rest@.len(),
            out@.map_values(|t: &str| t@) + split_char_spec(rest@, c) == split_char_spec(s@, c),
        decreases n,
    {
        let k = find_char(rest, c);
        proof {
            lemma_first_ix(rest@, c);
        }
        let ghost prev_map = out@.map_values(|t: &str| t@);
        let ghost prev_rest = rest@;
        if k == n {
            out.push(rest);
            rest = rest.substring_char(n, n);
            proof {
                assert(rest@ =~= Seq::<char>::empty());
                assert(out@.map_values(|t: &str| t@) =~= prev_map.push(prev_rest));
                assert(split_char_spec(prev_rest, c) == seq![prev_rest]);
                assert(prev_map.push(prev_rest) + Seq::<Seq<char>>::empty() =~= prev_map + seq![
                    prev_rest,
                ]);
                assert(out@.map_values(|t: &str| t@) + split_char_spec(rest@, c) == split_char_spec(
                    s@,
                    c,
                ));
            }
        } else {
            let head = rest.substring_char(0, k);
            let tail = rest.substring_char(k + 1, n);
            out.push(head);
            rest = tail;
            proof {
                assert(out@.map_values(|t: &str| t@) =~= prev_map.push(head@));
                assert(split_char_spec(prev_rest, c) == seq![prev_rest.subrange(0, k as int)]
                    + split_char_spec(prev_rest.subrange(k + 1, prev_rest.len() as int), c));
                assert(prev_map.push(head@) + split_char_spec(rest@, c) =~= prev_map + (seq![head@]
                    + split_char_spec(rest@, c)));
            }
        }
        n = rest.unicode_len();
    }
    proof {
        assert(out@.map_values(|t: &str| t@) + Seq::<Seq<char>>::empty() =~= out@.map_values(
            |t: &str| t@,
        ));
    }
    out
}

pub open spec fn dec_digit(d: int) -> char {
    if d == 0 {
        '0'
    } else if d == 1 {
        '1'
    } else if d == 2 {
        '2'
    } else if d == 3 {
        '3'
    } else if d == 4 {
        '4'
    } else if d == 5 {
        '5'
    } else if d == 6 {
        '6'
    } else if d == 7 {
        '7'
    } else if d == 8 {
        '8'
    } else {
        '9'
    }
}

pub open spec fn hex_digit(d: int) -> char {
    if d < 10 {
        dec_digit(d)
    } else if d == 10 {
        'a'
    } else if d == 11 {
        'b'
    } else if d == 12 {
        'c'
    } else if d == 13 {
        'd'
    } else if d == 14 {
        'e'
    } else {
        'f'
    }
}

/// The decimal digits of `n`, most significant first.
pub open spec fn u64_dec_spec(n: nat) -> Seq<char>
    decreases n,
{
    if n < 10 {
        seq![dec_digit(n as int)]
    } else {
        u64_dec_spec(n / 10) + seq![dec_digit((n % 10) as int)]
    }
}

/// The decimal rendering of `n`, with a leading minus sign when negative.
pub open spec fn i64_dec_spec(n: int) -> Seq<char> {
    if n >= 0 {
        u64_dec_spec(n as nat)
    } else {
        seq!['-'] + u64_dec_spec((-n) as nat)
    }
}

/// The lowercase hexadecimal digits of `n`, most significant first.
pub open spec fn u64_hex_spec(n: nat) -> Seq<char>
    decreases n,
{
    if n < 16 {
        seq![hex_digit(n as int)]
    } else {
        u64_hex_spec(n / 16) + seq![hex_digit((n % 16) as int)]
    }
}

fn dec_digit_str(d: u64) -> (r: &'static str)
    requires
        d < 10,
    ensures
        r@ =~= seq![dec_digit(d as int)],
{
    proof {
        reveal_strlit("0");
        reveal_strlit("1");
        reveal_strlit("2");
        reveal_strlit("3");
        reveal_strlit("4");
        reveal_strlit("5");
        reveal_strlit("6");
        reveal_strlit("7");
        reveal_strlit("8");
        reveal_strlit("9");
    }
    match d {
        0 => "0",
        1 => "1",
        2 => "2",
        3 => "3",
        4 => "4",
        5 => "5",
        6 => "6",
        7 => "7",
        8 => "8",
        _ => "9",
    }
}

fn hex_digit_str(d: u64) -> (r: &'static str)
    requires
        d < 16,
    ensures
        r@ =~= seq![hex_digit(d as int)],
{
    if d < 10 {
        dec_digit_str(d)
    } else {
        proof {
            reveal_strlit("a");
            reveal_strlit("b");
            reveal_strlit("c");
            reveal_strlit("d");
            reveal_strlit("e");
            reveal_strlit("f");
        }
        match d {
            10 => "a",
            11 => "b",
            12 => "c",
            13 => "d",
            14 => "e",
            _ => "f",
        }
    }
}

pub fn u64_to_dec(n: u64) -> (s: String)
    ensures
        s@ == u64_dec_spec(n as nat),
    decreases n,
{
    if n < 10 {
        String::from_str(dec_digit_str(n))
    } else {
        let mut s = u64_to_dec(n / 10);
        s.append(dec_digit_str(n % 10));
        s
    }
}

pub fn u64_to_hex(n: u64) -> (s: String)
    ensures
        s@ == u64_hex_spec(n as nat),
    decreases n,
{
    if n < 16 {
        String::from_str(hex_digit_str(n))
    } else {
        let mut s = u64_to_hex(n / 16);
        s.append(hex_digit_str(n % 16));
        s
    }
}

pub fn i64_to_dec(n: i64) -> (s: String)
    ensures
        s@ == i64_dec_spec(n as int),
{
    if n >= 0 {
        u64_to_dec(n as u64)
    } else {
        proof {
            reveal_strlit("-");
        }
        let mut s = String::from_str("-");
        proof {
            assert(s@ =~= seq!['-']);
        }
        if n == i64::MIN {
            s.append(u64_to_dec(9223372036854775808u64).as_str());
        } else {
            s.append(u64_to_dec((-n) as u64).as_str());
        }
        s
    }
}

} // verus!
