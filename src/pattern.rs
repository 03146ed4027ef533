//! Line patterns of the form `lit0 N lit1 N ... N litn`, where each `N` is a
//! run of decimal digits. A match is searched from the left; each digit run
//! is taken whole, as a greedy `\d+` followed by a literal that starts with
//! a non-digit does. A match reports the position of each digit run.
use crate::text::{
    all_digits, digits_value, is_digit, nat_of, occurs_at, occurs_at_exec, parse_uint, slice_of, unsigned_digits,
};
use crate::types::Error;
use vstd::prelude::*;

verus! {

/// The end of the digit run that starts at `j`.
pub open spec fn run_end(s: Seq<char>, j: int) -> int
    decreases s.len() - j,
{
    if j < 0 || j >= s.len() || !is_digit(s[j]) {
        j
    } else {
        run_end(s, j + 1)
    }
}

/// At `j`: a digit run, then `lits[k]`, then the rest of the pattern.
pub open spec fn match_tail(s: Seq<char>, j: int, lits: Seq<Seq<char>>, k: int) -> Option<
    Seq<(int, int)>,
>
    decreases lits.len() - k,
{
    if k < 1 || k >= lits.len() {
        Some(seq![])
    } else {
        let e = run_end(s, j);
        if e == j || !occurs_at(s, e, lits[k]) {
            None
        } else {
            match match_tail(s, e + lits[k].len(), lits, k + 1) {
                Some(v) => Some(seq![(j, e)] + v),
                None => None,
            }
        }
    }
}

/// The pattern matched at position `i`: the spans of its digit runs.
pub open spec fn match_at(s: Seq<char>, i: int, lits: Seq<Seq<char>>) -> Option<Seq<(int, int)>> {
    if lits.len() > 0 && occurs_at(s, i, lits[0]) {
        match_tail(s, i + lits[0].len(), lits, 1)
    } else {
        None
    }
}

/// The leftmost match at or after `i`.
pub open spec fn first_match_from(s: Seq<char>, lits: Seq<Seq<char>>, i: int) -> Option<
    Seq<(int, int)>,
>
    decreases s.len() + 1 - i,
{
    if i < 0 || i > s.len() {
        None
    } else {
        match match_at(s, i, lits) {
            Some(v) => Some(v),
            None => first_match_from(s, lits, i + 1),
        }
    }
}

/// The leftmost match of the pattern in `s`.
pub open spec fn find(s: Seq<char>, lits: Seq<Seq<char>>) -> Option<Seq<(int, int)>> {
    first_match_from(s, lits, 0)
}

pub open spec fn opt_prepend(v: Seq<(int, int)>, o: Option<Seq<(int, int)>>) -> Option<
    Seq<(int, int)>,
> {
    match o {
        Some(w) => Some(v + w),
        None => None,
    }
}

pub open spec fn spans(v: Seq<(usize, usize)>) -> Seq<(int, int)> {
    v.map_values(|p: (usize, usize)| (p.0 as int, p.1 as int))
}

pub open spec fn lits_view(l: Seq<Vec<char>>) -> Seq<Seq<char>> {
    l.map_values(|x: Vec<char>| x@)
}

fn run_end_exec(s: &[char], j: usize) -> (r: usize)
    requires
        j <= s@.len(),
    ensures
        r == run_end(s@, j as int),
        j <= r <= s@.len(),
        forall|k: int| j <= k < r ==> is_digit(#[trigger] s@[k]),
{
    let n = s.len();
    let mut k: usize = j;
    while k < n && '0' <= s[k] && s[k] <= '9'
        invariant
            n == s@.len(),
            j <= k <= n,
            run_end(s@, k as int) == run_end(s@, j as int),
            forall|m: int| j <= m < k ==> is_digit(#[trigger] s@[m]),
        decreases n - k,
    {
        k = k + 1;
    }
    k
}

fn match_at_exec(s: &[char], i: usize, lits: &Vec<Vec<char>>) -> (r: Option<Vec<(usize, usize)>>)
    requires
        i <= s@.len(),
    ensures
        match match_at(s@, i as int, lits_view(lits@)) {
            Some(v) => r matches Some(w) && spans(w@) == v,
            None => r is None,
        },
{
    let ghost lv = lits_view(lits@);
    let n = s.len();
    if lits.len() == 0 {
        return None;
    }
    assert(lits@[0]@ == lv[0]);
    if !occurs_at_exec(s, i, lits[0].as_slice()) {
        return None;
    }
    assert(i + lv[0].len() <= s@.len());
    let mut pos: usize = i + lits[0].len();
    let mut out: Vec<(usize, usize)> = Vec::new();
    let mut k: usize = 1;
    while k < lits.len()
        invariant
            lv == lits_view(lits@),
            n == s@.len(),
            1 <= k <= lv.len(),
            pos <= s@.len(),
            match_at(s@, i as int, lv) == opt_prepend(spans(out@), match_tail(s@, pos as int, lv, k as int)),
        decreases lv.len() - k,
    {
        let e = run_end_exec(s, pos);
        assert(lits@[k as int]@ == lv[k as int]);
        if e == pos || !occurs_at_exec(s, e, lits[k].as_slice()) {
            return None;
        }
        assert(e + lv[k as int].len() <= s@.len());
        let ghost old_out = out@;
        out.push((pos, e));
        assert(spans(out@) == spans(old_out) + seq![(pos as int, e as int)]);
        assert(spans(old_out) + (seq![(pos as int, e as int)] + match_tail(s@, e + lv[k as int].len(), lv, k + 1).unwrap())
            == spans(out@) + match_tail(s@, e + lv[k as int].len(), lv, k + 1).unwrap());
        pos = e + lits[k].len();
        k = k + 1;
    }
    assert(spans(out@) + seq![] == spans(out@));
    Some(out)
}

/// Searches `s` for the leftmost match of the pattern `lits`.
pub fn find_exec(s: &[char], lits: &Vec<Vec<char>>) -> (r: Option<Vec<(usize, usize)>>)
    ensures
        match find(s@, lits_view(lits@)) {
            Some(v) => r matches Some(w) && spans(w@) == v,
            None => r is None,
        },
{
    let n = s.len();
    let mut i: usize = 0;
    while i <= n
        invariant
            n == s@.len(),
            0 <= i <= n + 1,
            find(s@, lits_view(lits@)) == first_match_from(s@, lits_view(lits@), i as int),
        ensures
            find(s@, lits_view(lits@)) is None,
        decreases n + 1 - i,
    {
        match match_at_exec(s, i, lits) {
            Some(w) => {
                return Some(w);
            },
            None => {},
        }
        if i == n {
            assert(first_match_from(s@, lits_view(lits@), n + 1) is None);
            break;
        }
        i = i + 1;
    }
    None
}

/// Every span that a match reports lies inside `s` and holds digits only.
pub proof fn lemma_spans_digits(s: Seq<char>, j: int, lits: Seq<Seq<char>>, k: int)
    requires
        0 <= j <= s.len(),
        match_tail(s, j, lits, k) is Some,
    ensures
        forall|m: int|
            0 <= m < match_tail(s, j, lits, k).unwrap().len() ==> {
                let p = #[trigger] match_tail(s, j, lits, k).unwrap()[m];
                &&& 0 <= p.0 < p.1 <= s.len()
                &&& forall|q: int| p.0 <= q < p.1 ==> is_digit(s[q])
            },
    decreases lits.len() - k,
{
    if 1 <= k < lits.len() {
        let e = run_end(s, j);
        lemma_run_end(s, j);
        lemma_spans_digits(s, e + lits[k].len(), lits, k + 1);
        let v = match_tail(s, e + lits[k].len(), lits, k + 1).unwrap();
        let w = match_tail(s, j, lits, k).unwrap();
        assert forall|m: int| 0 <= m < w.len() implies {
            let p = #[trigger] w[m];
            &&& 0 <= p.0 < p.1 <= s.len()
            &&& forall|q: int| p.0 <= q < p.1 ==> is_digit(s[q])
        } by {
            if m > 0 {
                assert(w[m] == v[m - 1]);
            }
        }
    }
}

pub proof fn lemma_run_end(s: Seq<char>, j: int)
    requires
        0 <= j <= s.len(),
    ensures
        j <= run_end(s, j) <= s.len(),
        forall|q: int| j <= q < run_end(s, j) ==> is_digit(s[q]),
    decreases s.len() - j,
{
    if j < s.len() && is_digit(s[j]) {
        lemma_run_end(s, j + 1);
    }
}

/// The spans of a match found by `find` lie inside `s` and hold digits.
pub proof fn lemma_find_digits(s: Seq<char>, lits: Seq<Seq<char>>, i: int)
    requires
        0 <= i,
        first_match_from(s, lits, i) is Some,
    ensures
        forall|m: int|
            0 <= m < first_match_from(s, lits, i).unwrap().len() ==> {
                let p = #[trigger] first_match_from(s, lits, i).unwrap()[m];
                &&& 0 <= p.0 < p.1 <= s.len()
                &&& forall|q: int| p.0 <= q < p.1 ==> is_digit(s[q])
            },
    decreases s.len() + 1 - i,
{
    if i <= s.len() {
        if match_at(s, i, lits) is Some {
            lemma_spans_digits(s, i + lits[0].len(), lits, 1);
        } else {
            lemma_find_digits(s, lits, i + 1);
        }
    }
}

/// The values of the digit runs of the leftmost match.
pub open spec fn captures(s: Seq<char>, lits: Seq<Seq<char>>) -> Option<Seq<nat>> {
    match find(s, lits) {
        Some(v) => Some(Seq::new(v.len(), |k: int| digits_value(s.subrange(v[k].0, v[k].1)))),
        None => None,
    }
}

/// Every value of a match is at most `max`.
pub open spec fn all_upto(v: Seq<nat>, max: nat) -> bool {
    forall|k: int| 0 <= k < v.len() ==> #[trigger] v[k] <= max
}

/// The values of the leftmost match of `lits` in `s`; a value above `max`
/// is malformed data.
pub fn find_values(s: &[char], lits: &Vec<Vec<char>>, max: u64) -> (r: Result<Option<Vec<u64>>, Error>)
    ensures
        match captures(s@, lits_view(lits@)) {
            None => r matches Ok(None),
            Some(v) => if all_upto(v, max as nat) {
                r matches Ok(Some(w)) && w@.len() == v.len() && forall|k: int|
                    0 <= k < v.len() ==> #[trigger] w@[k] == v[k]
            } else {
                r == Err::<Option<Vec<u64>>, Error>(Error::Malformed)
            },
        },
{
    let ghost lv = lits_view(lits@);
    match find_exec(s, lits) {
        None => Ok(None),
        Some(sp) => {
            proof {
                lemma_find_digits(s@, lv, 0);
            }
            let ghost vals = captures(s@, lv).unwrap();
            let mut out: Vec<u64> = Vec::new();
            let mut k: usize = 0;
            while k < sp.len()
                invariant
                    lv == lits_view(lits@),
                    Some(spans(sp@)) == find(s@, lv),
                    vals == captures(s@, lv).unwrap(),
                    vals.len() == sp@.len(),
                    0 <= k <= sp@.len(),
                    out@.len() == k,
                    forall|m: int| 0 <= m < k ==> #[trigger] out@[m] == vals[m],
                    forall|m: int| 0 <= m < k ==> #[trigger] vals[m] <= max,
                    forall|m: int|
                        0 <= m < spans(sp@).len() ==> {
                            let p = #[trigger] spans(sp@)[m];
                            &&& 0 <= p.0 < p.1 <= s@.len()
                            &&& forall|q: int| p.0 <= q < p.1 ==> is_digit(s@[q])
                        },
                decreases sp@.len() - k,
            {
                let (a, b) = sp[k];
                assert(spans(sp@)[k as int] == (a as int, b as int));
                let d = slice_of(s, a, b);
                assert(forall|q: int| 0 <= q < d@.len() ==> is_digit(#[trigger] d@[q])) by {
                    assert forall|q: int| 0 <= q < d@.len() implies is_digit(#[trigger] d@[q]) by {
                        assert(d@[q] == s@[a + q]);
                    }
                }
                assert(all_digits(d@));
                assert(d@[0] != '+');
                assert(unsigned_digits(d@) == d@);
                assert(vals[k as int] == digits_value(d@));
                assert(nat_of(d@) == Some(digits_value(d@)));
                match parse_uint(d.as_slice(), max) {
                    Some(x) => out.push(x),
                    None => {
                        assert(!all_upto(vals, max as nat));
                        return Err(Error::Malformed);
                    },
                }
                k = k + 1;
            }
            Ok(Some(out))
        },
    }
}

/// A match has one value per digit run of the pattern.
pub proof fn lemma_captures_len(s: Seq<char>, lits: Seq<Seq<char>>)
    requires
        captures(s, lits) is Some,
        lits.len() >= 1,
    ensures
        captures(s, lits).unwrap().len() == lits.len() - 1,
{
    lemma_first_len(s, lits, 0);
}

proof fn lemma_first_len(s: Seq<char>, lits: Seq<Seq<char>>, i: int)
    requires
        first_match_from(s, lits, i) is Some,
        lits.len() >= 1,
    ensures
        first_match_from(s, lits, i).unwrap().len() == lits.len() - 1,
    decreases s.len() + 1 - i,
{
    if 0 <= i <= s.len() {
        if match_at(s, i, lits) is Some {
            lemma_tail_len(s, i + lits[0].len(), lits, 1);
        } else {
            lemma_first_len(s, lits, i + 1);
        }
    }
}

proof fn lemma_tail_len(s: Seq<char>, j: int, lits: Seq<Seq<char>>, k: int)
    requires
        match_tail(s, j, lits, k) is Some,
        1 <= k <= lits.len(),
    ensures
        match_tail(s, j, lits, k).unwrap().len() == lits.len() - k,
    decreases lits.len() - k,
{
    if k < lits.len() {
        let e = run_end(s, j);
        lemma_tail_len(s, e + lits[k].len(), lits, k + 1);
    }
}

} // verus!
