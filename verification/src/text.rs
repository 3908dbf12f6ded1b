//! Verified text utilities: string equality, substring search, line
//! splitting, and decimal rendering of integers.

use vstd::prelude::*;

verus! {

/// True when `p` occurs as a contiguous run inside `t`.
pub open spec fn spec_contains(t: Seq<char>, p: Seq<char>) -> bool {
    exists|i: int| 0 <= i && i + p.len() <= t.len() && #[trigger] t.subrange(i, i + p.len()) == p
}

/// Character-by-character string equality, stated over the views.
pub fn str_eq(a: &str, b: &str) -> (r: bool)
    ensures
        r == (a@ == b@),
{
    let an = a.unicode_len();
    let bn = b.unicode_len();
    if an != bn {
        return false;
    }
    let mut k: usize = 0;
    while k < an
        invariant
            0 <= k <= an,
            an == a@.len(),
            an == b@.len(),
            forall|i: int| 0 <= i < k ==> a@[i] == b@[i],
        decreases an - k,
    {
        if a.get_char(k) != b.get_char(k) {
            assert(a@[k as int] != b@[k as int]);
            return false;
        }
        k += 1;
    }
    proof {
        assert(a@ =~= b@);
    }
    true
}

/// True when `s` begins with `prefix`.
pub fn str_starts_with(s: &str, prefix: &str) -> (r: bool)
    ensures
        r == (prefix@.len() <= s@.len() && s@.subrange(0, prefix@.len() as int) == prefix@),
{
    let pn = prefix.unicode_len();
    let sn = s.unicode_len();
    if pn > sn {
        return false;
    }
    let head = s.substring_char(0, pn);
    str_eq(head, prefix)
}

/// Index of the first occurrence of `p` in `t`, if any.
pub fn find_substr(t: &str, p: &str) -> (r: Option<usize>)
    ensures
        match r {
            Some(i) => i + p@.len() <= t@.len() && t@.subrange(i as int, i + p@.len()) == p@
                && forall|j: int|
                0 <= j < i ==> #[trigger] t@.subrange(j, j + p@.len()) != p@,
            None => !spec_contains(t@, p@),
        },
{
    let tn = t.unicode_len();
    let pn = p.unicode_len();
    if pn > tn {
        return None;
    }
    if pn == 0 {
        proof {
            assert(t@.subrange(0, 0) =~= p@);
        }
        return Some(0);
    }
    let mut i: usize = 0;
    while i <= tn - pn
        invariant
            0 < pn <= tn,
            tn == t@.len(),
            pn == p@.len(),
            0 <= i <= tn - pn + 1,
            forall|j: int| 0 <= j < i ==> #[trigger] t@.subrange(j, j + p@.len()) != p@,
        decreases tn - pn + 1 - i,
    {
        let cand = t.substring_char(i, i + pn);
        if str_eq(cand, p) {
            return Some(i);
        }
        i += 1;
    }
    proof {
        assert forall|j: int| !(0 <= j && j + p@.len() <= t@.len() && #[trigger] t@.subrange(
            j,
            j + p@.len(),
        ) == p@) by {
            if 0 <= j && j + p@.len() <= t@.len() {
                assert(t@.subrange(j, j + p@.len()) != p@);
            }
        }
    }
    None
}

/// True when `p` occurs inside `t`.
pub fn contains_substr(t: &str, p: &str) -> (r: bool)
    ensures
        r == spec_contains(t@, p@),
{
    match find_substr(t, p) {
        Some(_) => true,
        None => false,
    }
}

/// Index of the first newline in `s`, or `s.len()` when there is none.
pub open spec fn first_nl(s: Seq<char>) -> int
    decreases s.len(),
{
    if s.len() == 0 {
        0
    } else if s[0] == '\n' {
        0
    } else {
        1 + first_nl(s.subrange(1, s.len() as int))
    }
}

/// `first_nl` is the least index holding a newline, or the length.
pub proof fn lemma_first_nl(s: Seq<char>)
    ensures
        0 <= first_nl(s) <= s.len(),
        forall|j: int| 0 <= j < first_nl(s) ==> s[j] != '\n',
        first_nl(s) < s.len() ==> s[first_nl(s)] == '\n',
    decreases s.len(),
{
    if s.len() == 0 {
    } else if s[0] == '\n' {
    } else {
        let tail = s.subrange(1, s.len() as int);
        lemma_first_nl(tail);
        assert forall|j: int| 0 <= j < first_nl(s) implies s[j] != '\n' by {
            if j > 0 {
                assert(tail[j - 1] != '\n');
                assert(s[j] == tail[j - 1]);
            }
        }
        if first_nl(s) < s.len() {
            assert(s[first_nl(s)] == tail[first_nl(s) - 1]);
        }
    }
}

/// Any index that is least-with-a-newline (or the length) equals `first_nl`.
pub proof fn lemma_first_nl_unique(s: Seq<char>, k: int)
    requires
        0 <= k <= s.len(),
        forall|j: int| 0 <= j < k ==> s[j] != '\n',
        k < s.len() ==> s[k] == '\n',
    ensures
        first_nl(s) == k,
{
    lemma_first_nl(s);
    if first_nl(s) < k {
        assert(s[first_nl(s)] != '\n');
    } else if k < first_nl(s) {
        assert(s[k] != '\n');
    }
}

/// A line with any trailing carriage return removed.
pub open spec fn trim_cr(s: Seq<char>) -> Seq<char> {
    if s.len() > 0 && s[s.len() - 1] == '\r' {
        s.subrange(0, s.len() - 1)
    } else {
        s
    }
}

/// The lines of `s`: maximal runs split at `'\n'`, each with a trailing
/// `'\r'` removed. The empty text has no lines; a trailing newline does
/// not open a final empty line.
pub open spec fn spec_lines(s: Seq<char>) -> Seq<Seq<char>>
    decreases s.len(),
{
    if s.len() == 0 {
        Seq::empty()
    } else {
        let i = first_nl(s);
        if 0 <= i < s.len() {
            seq![trim_cr(s.subrange(0, i))] + spec_lines(s.subrange(i + 1, s.len() as int))
        } else {
            seq![trim_cr(s)]
        }
    }
}

/// Splits `s` into lines as `spec_lines` describes.
pub fn split_lines(s: &str) -> (r: Vec<String>)
    ensures
        r.deep_view() == spec_lines(s@),
{
    let n = s.unicode_len();
    let mut out: Vec<String> = Vec::new();
    let mut start: usize = 0;
    proof {
        assert(out.deep_view() =~= Seq::<Seq<char>>::empty());
        assert(s@.subrange(0, n as int) =~= s@);
    }
    while start < n
        invariant
            0 <= start <= n,
            n == s@.len(),
            spec_lines(s@) == out.deep_view() + spec_lines(s@.subrange(start as int, n as int)),
        decreases n - start,
    {
        let ghost rest = s@.subrange(start as int, n as int);
        let mut k: usize = start;
        while k < n && s.get_char(k) != '\n'
            invariant
                start <= k <= n,
                n == s@.len(),
                forall|j: int| start <= j < k ==> s@[j] != '\n',
            decreases n - k,
        {
            k += 1;
        }
        proof {
            assert forall|j: int| 0 <= j < (k as int) - (start as int) implies rest[j] != '\n' by {
                assert(rest[j] == s@[start + j]);
            }
            if (k as int) - (start as int) < rest.len() {
                assert(rest[(k as int) - (start as int)] == s@[k as int]);
            }
            lemma_first_nl_unique(rest, (k as int) - (start as int));
        }
        let raw = s.substring_char(start, k);
        proof {
            assert(raw@ =~= rest.subrange(0, (k as int) - (start as int)));
        }
        let rn = raw.unicode_len();
        let line = if rn > 0 && raw.get_char(rn - 1) == '\r' {
            raw.substring_char(0, rn - 1)
        } else {
            raw
        };
        proof {
            assert(line@ == trim_cr(raw@));
        }
        let ghost prev = out.deep_view();
        out.push(String::from_str(line));
        proof {
            assert(out.deep_view() =~= prev.push(line@));
        }
        if k == n {
            start = n;
            proof {
                assert(raw@ =~= rest);
                assert(spec_lines(rest) =~= seq![trim_cr(rest)]);
                assert(spec_lines(s@.subrange(n as int, n as int)) =~= Seq::<Seq<char>>::empty());
                assert(prev.push(line@) + spec_lines(s@.subrange(n as int, n as int)) =~= prev
                    + spec_lines(rest));
            }
        } else {
            proof {
                let tail = s@.subrange(k + 1, n as int);
                assert(rest.subrange((k as int) - (start as int) + 1, rest.len() as int) =~= tail);
                assert(spec_lines(rest) =~= seq![trim_cr(raw@)] + spec_lines(tail));
                assert(prev.push(line@) + spec_lines(tail) =~= prev + spec_lines(rest));
            }
            start = k + 1;
        }
    }
    proof {
        assert(spec_lines(s@.subrange(n as int, n as int)) =~= Seq::<Seq<char>>::empty());
        assert(out.deep_view() =~= spec_lines(s@));
    }
    out
}

/// The character for one decimal digit.
pub open spec fn digit_char(d: nat) -> char {
    if d == 0 {
        '0'
    } else if d == 1 {
        '1'
    } else if d == 2 {
        '2'
    } else if d == 3 {
        '3'
    } else if d == 4 {
        '4'
    } else if d == 5 {
        '5'
    } else if d == 6 {
        '6'
    } else if d == 7 {
        '7'
    } else if d == 8 {
        '8'
    } else {
        '9'
    }
}

/// The decimal digits of `n`, most significant first, without leading
/// zeros (except for `n == 0`, which is the single digit `'0'`).
pub open spec fn dec_digits(n: nat) -> Seq<char>
    decreases n,
{
    if n < 10 {
        seq![digit_char(n)]
    } else {
        dec_digits(n / 10) + seq![digit_char(n % 10)]
    }
}

fn digit_char_exec(d: u64) -> (c: char)
    requires
        d < 10,
    ensures
        c == digit_char(d as nat),
{
    if d == 0 {
        '0'
    } else if d == 1 {
        '1'
    } else if d == 2 {
        '2'
    } else if d == 3 {
        '3'
    } else if d == 4 {
        '4'
    } else if d == 5 {
        '5'
    } else if d == 6 {
        '6'
    } else if d == 7 {
        '7'
    } else if d == 8 {
        '8'
    } else {
        '9'
    }
}

/// Appends the decimal digits of `n` to `out`.
pub fn push_dec_digits(n: u64, out: &mut Vec<char>)
    ensures
        final(out)@ == old(out)@ + dec_digits(n as nat),
    decreases n,
{
    if n < 10 {
        out.push(digit_char_exec(n));
    } else {
        push_dec_digits(n / 10, out);
        out.push(digit_char_exec(n % 10));
        proof {
            assert(old(out)@ + dec_digits(n as nat) =~= (old(out)@ + dec_digits(
                n as nat / 10,
            )).push(digit_char((n % 10) as nat)));
        }
    }
}

/// Relies on `String::from_iter` over `char`: collecting characters
/// yields the string of exactly those characters in order.
#[verifier::external_body]
pub fn chars_to_string(v: &Vec<char>) -> (r: String)
    ensures
        r@ == v@,
{
    v.iter().collect()
}

/// The decimal rendering of `n`.
pub fn u64_to_dec(n: u64) -> (r: String)
    ensures
        r@ == dec_digits(n as nat),
{
    let mut buf: Vec<char> = Vec::new();
    push_dec_digits(n, &mut buf);
    chars_to_string(&buf)
}

/// The name of the per-job log directory under a cache root.
pub fn job_dir_name(id: u64) -> (r: String)
    ensures
        r@ == "job_"@ + dec_digits(id as nat),
{
    let mut s = String::from_str("job_");
    let digits = u64_to_dec(id);
    s.append(digits.as_str());
    s
}

/// The name of the per-job artifact directory under an output root.
pub fn artifact_dir_name(id: u64) -> (r: String)
    ensures
        r@ == "job-"@ + dec_digits(id as nat),
{
    let mut s = String::from_str("job-");
    let digits = u64_to_dec(id);
    s.append(digits.as_str());
    s
}

/// The file name a log resource is saved under.
pub fn log_file_name(log_name: &str) -> (r: String)
    ensures
        r@ == log_name@ + ".log"@,
{
    let mut s = String::from_str(log_name);
    s.append(".log");
    s
}

/// Clones an optional string, keeping its model unchanged.
pub fn clone_opt_string(o: &Option<String>) -> (r: Option<String>)
    ensures
        r.deep_view() == o.deep_view(),
{
    match o {
        Some(s) => Some(s.clone()),
        None => None,
    }
}

/// True when some element of `v` reads as `s`.
pub fn vec_contains_string(v: &Vec<String>, s: &str) -> (r: bool)
    ensures
        r == v.deep_view().contains(s@),
{
    let mut k: usize = 0;
    while k < v.len()
        invariant
            0 <= k <= v@.len(),
            v.deep_view().len() == v@.len(),
            forall|i: int| 0 <= i < k ==> v.deep_view()[i] != s@,
        decreases v@.len() - k,
    {
        if str_eq(v[k].as_str(), s) {
            proof {
                assert(v.deep_view()[k as int] == s@);
            }
            return true;
        }
        proof {
            assert(v.deep_view()[k as int] == v@[k as int]@);
        }
        k += 1;
    }
    proof {
        if v.deep_view().contains(s@) {
            let w = choose|i: int| 0 <= i < v.deep_view().len() && v.deep_view()[i] == s@;
            assert(v.deep_view()[w] != s@);
        }
    }
    false
}

/// The characters of `s`, as a vector.
pub fn str_to_chars(s: &str) -> (r: Vec<char>)
    ensures
        r@ == s@,
{
    let n = s.unicode_len();
    let mut out: Vec<char> = Vec::new();
    let mut i: usize = 0;
    while i < n
        invariant
            0 <= i <= n,
            n == s@.len(),
            out@ == s@.take(i as int),
        decreases n - i,
    {
        let ghost prev = out@;
        out.push(s.get_char(i));
        proof {
            assert(out@ =~= prev.push(s@[i as int]));
            assert(s@.take(i + 1) =~= s@.take(i as int).push(s@[i as int]));
        }
        i += 1;
    }
    proof {
        assert(s@.take(n as int) =~= s@);
    }
    out
}

} // verus!
