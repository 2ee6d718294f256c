//! Character-level text primitives shared by the parsers and the renderer.
//!
//! Every operation works on `Vec<char>` and is specified over `Seq<char>`.
use vstd::prelude::*;

verus! {

/// Unicode `White_Space`, the set that `str::trim` removes.
pub open spec fn is_ws(c: char) -> bool {
    let u = c as u32;
    (0x9 <= u && u <= 0xd) || u == 0x20 || u == 0x85 || u == 0xa0 || u == 0x1680 || (0x2000 <= u
        && u <= 0x200a) || u == 0x2028 || u == 0x2029 || u == 0x202f || u == 0x205f || u == 0x3000
}

/// `d` stands in `s` starting at index `i`.
pub open spec fn occurs_at(s: Seq<char>, d: Seq<char>, i: int) -> bool {
    0 <= i && i + d.len() <= s.len() && s.subrange(i, i + d.len()) == d
}

/// Index of the first occurrence of `d` in `s` at or after `from`, or -1.
pub open spec fn first_occ(s: Seq<char>, d: Seq<char>, from: int) -> int
    decreases s.len() - from,
{
    if from < 0 || from >= s.len() || from + d.len() > s.len() {
        -1
    } else if occurs_at(s, d, from) {
        from
    } else {
        first_occ(s, d, from + 1)
    }
}

/// Index of the last occurrence of `d` in `s` that starts at or before `i`, or -1.
pub open spec fn last_occ_upto(s: Seq<char>, d: Seq<char>, i: int) -> int
    decreases i + 1,
{
    if i < 0 {
        -1
    } else if occurs_at(s, d, i) {
        i
    } else {
        last_occ_upto(s, d, i - 1)
    }
}

pub open spec fn last_occ(s: Seq<char>, d: Seq<char>) -> int {
    last_occ_upto(s, d, s.len() - d.len())
}

pub open spec fn contains(s: Seq<char>, d: Seq<char>) -> bool {
    first_occ(s, d, 0) >= 0
}

/// What precedes the first occurrence of `d`; all of `s` when there is none.
pub open spec fn before_first(s: Seq<char>, d: Seq<char>) -> Seq<char> {
    let k = first_occ(s, d, 0);
    if k < 0 {
        s
    } else {
        s.subrange(0, k)
    }
}

/// What follows the last occurrence of `d`; all of `s` when there is none.
pub open spec fn after_last(s: Seq<char>, d: Seq<char>) -> Seq<char> {
    let k = last_occ(s, d);
    if k < 0 {
        s
    } else {
        s.subrange(k + d.len(), s.len() as int)
    }
}

/// Index of the first character at or after `i` that is not white space, else `s.len()`.
pub open spec fn lead_end(s: Seq<char>, i: int) -> int
    decreases s.len() - i,
{
    if i < 0 || i >= s.len() {
        s.len() as int
    } else if is_ws(s[i]) {
        lead_end(s, i + 1)
    } else {
        i
    }
}

/// One past the last character before `j` that is not white space, else 0.
pub open spec fn tail_start(s: Seq<char>, j: int) -> int
    decreases j,
{
    if j <= 0 || j > s.len() {
        0
    } else if is_ws(s[j - 1]) {
        tail_start(s, j - 1)
    } else {
        j
    }
}

/// `s` without leading and trailing white space.
pub open spec fn trim(s: Seq<char>) -> Seq<char> {
    let a = lead_end(s, 0);
    let b = tail_start(s, s.len() as int);
    if a >= b {
        Seq::empty()
    } else {
        s.subrange(a, b)
    }
}

/// The pieces of `s` between separators `c`, scanning from `i` with the
/// current piece begun at `start`.
pub open spec fn split_scan(s: Seq<char>, c: char, start: int, i: int) -> Seq<Seq<char>>
    decreases s.len() - i,
{
    if i >= s.len() {
        seq![s.subrange(start, s.len() as int)]
    } else if s[i] == c {
        seq![s.subrange(start, i)] + split_scan(s, c, i + 1, i + 1)
    } else {
        split_scan(s, c, start, i + 1)
    }
}

/// `s` split at every `c`, as `str::split` with a one-character pattern.
pub open spec fn split(s: Seq<char>, c: char) -> Seq<Seq<char>> {
    split_scan(s, c, 0, 0)
}

pub open spec fn esc() -> char {
    '\u{1b}'
}

/// `s` without the escape character U+001B.
pub open spec fn strip_esc(s: Seq<char>) -> Seq<char>
    decreases s.len(),
{
    if s.len() == 0 {
        Seq::empty()
    } else if s.last() == esc() {
        strip_esc(s.drop_last())
    } else {
        strip_esc(s.drop_last()).push(s.last())
    }
}

/// No escape character stands in `s` once it has been stripped.
pub proof fn lemma_strip_esc_free(s: Seq<char>)
    ensures
        forall|i: int| 0 <= i < strip_esc(s).len() ==> strip_esc(s)[i] != esc(),
    decreases s.len(),
{
    if s.len() > 0 {
        let prev = strip_esc(s.drop_last());
        lemma_strip_esc_free(s.drop_last());
        if s.last() != esc() {
            assert forall|i: int| 0 <= i < prev.push(s.last()).len() implies prev.push(s.last())[i]
                != esc() by {
                if i < prev.len() {
                    assert(prev.push(s.last())[i] == prev[i]);
                }
            }
        }
    }
}

/// Relies on `str::chars`: the characters of `s`, in order.
#[verifier::external_body]
pub(crate) fn chars_of(s: &str) -> (r: Vec<char>)
    ensures
        r@ == s@,
{
    s.chars().collect()
}

/// Relies on `String: FromIterator<char>`: a string of exactly these characters.
#[verifier::external_body]
pub(crate) fn string_of(v: &Vec<char>) -> (r: String)
    ensures
        r@ == v@,
{
    v.iter().collect()
}

/// `s` with every escape character U+001B left out.
pub fn strip_esc_exec(s: &str) -> (r: String)
    ensures
        r@ == strip_esc(s@),
{
    let cs = chars_of(s);
    let mut out: Vec<char> = Vec::new();
    let mut i: usize = 0;
    while i < cs.len()
        invariant
            i <= cs@.len(),
            cs@ == s@,
            out@ == strip_esc(cs@.subrange(0, i as int)),
        decreases cs@.len() - i,
    {
        proof {
            assert(cs@.subrange(0, i + 1).drop_last() =~= cs@.subrange(0, i as int));
        }
        if cs[i] != '\u{1b}' {
            out.push(cs[i]);
        }
        i = i + 1;
    }
    assert(cs@.subrange(0, i as int) =~= cs@);
    string_of(&out)
}

pub fn is_ws_char(c: char) -> (r: bool)
    ensures
        r == is_ws(c),
{
    let u = c as u32;
    (0x9 <= u && u <= 0xd) || u == 0x20 || u == 0x85 || u == 0xa0 || u == 0x1680 || (0x2000 <= u
        && u <= 0x200a) || u == 0x2028 || u == 0x2029 || u == 0x202f || u == 0x205f || u == 0x3000
}

pub fn slice(s: &Vec<char>, from: usize, to: usize) -> (r: Vec<char>)
    requires
        from <= to <= s@.len(),
    ensures
        r@ == s@.subrange(from as int, to as int),
{
    let mut r: Vec<char> = Vec::new();
    let mut i: usize = from;
    while i < to
        invariant
            from <= i <= to <= s@.len(),
            r@ == s@.subrange(from as int, i as int),
        decreases to - i,
    {
        r.push(s[i]);
        i = i + 1;
        assert(r@ =~= s@.subrange(from as int, i as int));
    }
    r
}

pub fn occurs_at_exec(s: &Vec<char>, d: &Vec<char>, i: usize) -> (r: bool)
    ensures
        r == occurs_at(s@, d@, i as int),
{
    if i > s.len() || d.len() > s.len() - i {
        return false;
    }
    let mut j: usize = 0;
    while j < d.len()
        invariant
            i + d@.len() <= s@.len(),
            s@.len() <= usize::MAX,
            j <= d@.len(),
            forall|k: int| 0 <= k < j ==> s@[i + k] == d@[k],
        decreases d@.len() - j,
    {
        if s[i + j] != d[j] {
            assert(s@.subrange(i as int, i + d@.len())[j as int] != d@[j as int]);
            return false;
        }
        j = j + 1;
    }
    assert(s@.subrange(i as int, i + d@.len()) =~= d@);
    true
}

/// The first occurrence of `d` at or after `from`.
pub fn find_first(s: &Vec<char>, d: &Vec<char>, from: usize) -> (r: Option<usize>)
    ensures
        match r {
            Some(k) => k as int == first_occ(s@, d@, from as int),
            None => first_occ(s@, d@, from as int) == -1,
        },
{
    let mut i: usize = from;
    while i < s.len()
        invariant
            from <= i,
            first_occ(s@, d@, from as int) == first_occ(s@, d@, i as int),
        decreases s@.len() - i,
    {
        if d.len() > s.len() - i {
            return None;
        }
        if occurs_at_exec(s, d, i) {
            return Some(i);
        }
        i = i + 1;
    }
    None
}

/// The last occurrence of `d`.
pub fn find_last(s: &Vec<char>, d: &Vec<char>) -> (r: Option<usize>)
    ensures
        match r {
            Some(k) => k as int == last_occ(s@, d@),
            None => last_occ(s@, d@) == -1,
        },
{
    if d.len() > s.len() {
        return None;
    }
    let mut i: usize = s.len() - d.len();
    loop
        invariant
            i + d@.len() <= s@.len(),
            last_occ(s@, d@) == last_occ_upto(s@, d@, i as int),
        decreases i,
    {
        if occurs_at_exec(s, d, i) {
            return Some(i);
        }
        if i == 0 {
            assert(last_occ_upto(s@, d@, -1) == -1);
            return None;
        }
        i = i - 1;
    }
}

pub fn contains_exec(s: &Vec<char>, d: &Vec<char>) -> (r: bool)
    ensures
        r == contains(s@, d@),
{
    match find_first(s, d, 0) {
        Some(_) => true,
        None => false,
    }
}

pub fn before_first_exec(s: &Vec<char>, d: &Vec<char>) -> (r: Vec<char>)
    ensures
        r@ == before_first(s@, d@),
{
    match find_first(s, d, 0) {
        Some(k) => {
            proof {
                lemma_first_occ_bounds(s@, d@, 0);
            }
            slice(s, 0, k)
        },
        None => slice(s, 0, s.len()),
    }
}

pub fn after_last_exec(s: &Vec<char>, d: &Vec<char>) -> (r: Vec<char>)
    ensures
        r@ == after_last(s@, d@),
{
    match find_last(s, d) {
        Some(k) => {
            proof {
                lemma_last_occ_bounds(s@, d@, s@.len() - d@.len());
                assert(occurs_at(s@, d@, k as int));
                assert(k + d@.len() <= s.len());
            }
            slice(s, k + d.len(), s.len())
        },
        None => slice(s, 0, s.len()),
    }
}

pub proof fn lemma_first_occ_bounds(s: Seq<char>, d: Seq<char>, from: int)
    ensures
        first_occ(s, d, from) == -1 || (from <= first_occ(s, d, from) && occurs_at(
            s,
            d,
            first_occ(s, d, from),
        )),
    decreases s.len() - from,
{
    if from < 0 || from >= s.len() || from + d.len() > s.len() {
    } else if occurs_at(s, d, from) {
    } else {
        lemma_first_occ_bounds(s, d, from + 1);
    }
}

pub proof fn lemma_last_occ_bounds(s: Seq<char>, d: Seq<char>, i: int)
    ensures
        last_occ_upto(s, d, i) == -1 || (last_occ_upto(s, d, i) <= i && occurs_at(
            s,
            d,
            last_occ_upto(s, d, i),
        )),
    decreases i + 1,
{
    if i >= 0 && !occurs_at(s, d, i) {
        lemma_last_occ_bounds(s, d, i - 1);
    }
}

pub fn trim_exec(s: &Vec<char>) -> (r: Vec<char>)
    ensures
        r@ == trim(s@),
{
    let mut a: usize = 0;
    while a < s.len() && is_ws_char(s[a])
        invariant
            a <= s@.len(),
            lead_end(s@, 0) == lead_end(s@, a as int),
        decreases s@.len() - a,
    {
        a = a + 1;
    }
    let mut b: usize = s.len();
    while b > 0 && is_ws_char(s[b - 1])
        invariant
            b <= s@.len(),
            tail_start(s@, s@.len() as int) == tail_start(s@, b as int),
        decreases b,
    {
        b = b - 1;
    }
    if a >= b {
        Vec::new()
    } else {
        slice(s, a, b)
    }
}

/// `s` split at every `c`.
pub fn split_exec(s: &Vec<char>, c: char) -> (r: Vec<Vec<char>>)
    ensures
        r@.len() == split(s@, c).len(),
        forall|k: int| 0 <= k < r@.len() ==> #[trigger] r@[k]@ == split(s@, c)[k],
{
    let mut r: Vec<Vec<char>> = Vec::new();
    let ghost mut done: Seq<Seq<char>> = Seq::empty();
    let mut start: usize = 0;
    let mut i: usize = 0;
    while i < s.len()
        invariant
            start <= i <= s@.len(),
            r@.len() == done.len(),
            forall|k: int| 0 <= k < r@.len() ==> #[trigger] r@[k]@ == done[k],
            done + split_scan(s@, c, start as int, i as int) == split(s@, c),
        decreases s@.len() - i,
    {
        if s[i] == c {
            let piece = slice(s, start, i);
            proof {
                let rest = split_scan(s@, c, (i + 1) as int, (i + 1) as int);
                assert(done + (seq![piece@] + rest) =~= (done + seq![piece@]) + rest);
                done = done + seq![piece@];
            }
            r.push(piece);
            start = i + 1;
        }
        i = i + 1;
    }
    let piece = slice(s, start, s.len());
    proof {
        done = done + seq![piece@];
    }
    r.push(piece);
    r
}

} // verus!
