//! Text as sequences of characters: searching, replacing, trimming,
//! ordering and decimal numerals, each with a mathematical statement of
//! what it computes.

use vstd::prelude::*;

verus! {

/// `String::push` appends one character.
pub assume_specification[ String::push ](s: &mut String, c: char)
    ensures
        final(s)@ == old(s)@.push(c),
;

/// The characters of `s`, in order.
pub fn chars_of(s: &str) -> (v: Vec<char>)
    ensures
        v@ == s@,
{
    let mut v: Vec<char> = Vec::new();
    for c in it: s.chars()
        invariant
            v@ == it.seq().take(it.index() as int),
            it.seq() == s@,
    {
        v.push(c);
    }
    v
}

/// The string made of the characters `v[from..to]`.
pub fn string_of_range(v: &Vec<char>, from: usize, to: usize) -> (s: String)
    requires
        from <= to <= v.len(),
    ensures
        s@ == v@.subrange(from as int, to as int),
{
    let mut s = String::new();
    let mut i: usize = from;
    while i < to
        invariant
            from <= i <= to <= v.len(),
            s@ == v@.subrange(from as int, i as int),
        decreases to - i,
    {
        s.push(v[i]);
        assert(v@.subrange(from as int, i + 1) =~= v@.subrange(from as int, i as int).push(
            v@[i as int],
        ));
        i += 1;
    }
    s
}

/// The string made of the characters of `v`.
pub fn string_of(v: &Vec<char>) -> (s: String)
    ensures
        s@ == v@,
{
    let s = string_of_range(v, 0, v.len());
    assert(v@.subrange(0, v.len() as int) =~= v@);
    s
}

/// Appends the characters of `tail` to `out`.
pub fn push_all(out: &mut Vec<char>, tail: &Vec<char>)
    ensures
        final(out)@ == old(out)@ + tail@,
{
    let mut i: usize = 0;
    while i < tail.len()
        invariant
            i <= tail.len(),
            out@ == old(out)@ + tail@.take(i as int),
        decreases tail.len() - i,
    {
        out.push(tail[i]);
        assert(tail@.take(i + 1) =~= tail@.take(i as int).push(tail@[i as int]));
        assert(old(out)@ + tail@.take(i + 1) =~= (old(out)@ + tail@.take(i as int)).push(
            tail@[i as int],
        ));
        i += 1;
    }
    assert(tail@.take(tail.len() as int) =~= tail@);
}

/// Appends the characters of `tail` to `out`.
pub fn push_str(out: &mut Vec<char>, tail: &str)
    ensures
        final(out)@ == old(out)@ + tail@,
{
    let t = chars_of(tail);
    push_all(out, &t);
}

/// `pat` stands in `s` at position `i`.
pub open spec fn occurs_at(s: Seq<char>, pat: Seq<char>, i: int) -> bool {
    0 <= i && i + pat.len() <= s.len() && s.subrange(i, i + pat.len()) == pat
}

/// `pat` stands somewhere in `s`.
pub open spec fn contains_text(s: Seq<char>, pat: Seq<char>) -> bool {
    exists|i: int| occurs_at(s, pat, i)
}

/// `s` begins with `pat`.
pub open spec fn starts_with(s: Seq<char>, pat: Seq<char>) -> bool {
    occurs_at(s, pat, 0)
}

/// `s` ends with `pat`.
pub open spec fn ends_with(s: Seq<char>, pat: Seq<char>) -> bool {
    occurs_at(s, pat, s.len() - pat.len())
}

/// The position of the first occurrence of `pat` in `s` at or after `from`,
/// if there is one.
pub open spec fn first_occurrence(s: Seq<char>, pat: Seq<char>, from: int) -> Option<int>
    decreases s.len() + 1 - from,
{
    if from < 0 || from + pat.len() > s.len() {
        None
    } else if occurs_at(s, pat, from) {
        Some(from)
    } else {
        first_occurrence(s, pat, from + 1)
    }
}

/// What `first_occurrence` finds is an occurrence, nothing before it is one,
/// and where it finds nothing there is none.
pub proof fn lemma_first_occurrence(s: Seq<char>, pat: Seq<char>, from: int)
    requires
        0 <= from,
    ensures
        match first_occurrence(s, pat, from) {
            Some(i) => from <= i && occurs_at(s, pat, i) && forall|j: int|
                from <= j < i ==> !occurs_at(s, pat, j),
            None => forall|j: int| from <= j ==> !occurs_at(s, pat, j),
        },
    decreases s.len() + 1 - from,
{
    if from + pat.len() > s.len() {
    } else if occurs_at(s, pat, from) {
    } else {
        lemma_first_occurrence(s, pat, from + 1);
    }
}

/// Whether `pat` stands in `hay` at position `i`.
pub fn matches_at(hay: &Vec<char>, pat: &Vec<char>, i: usize) -> (r: bool)
    ensures
        r == occurs_at(hay@, pat@, i as int),
{
    if pat.len() > hay.len() || i > hay.len() - pat.len() {
        return false;
    }
    let mut k: usize = 0;
    while k < pat.len()
        invariant
            k <= pat.len(),
            i + pat.len() <= hay.len(),
            forall|j: int| 0 <= j < k ==> hay@[i + j] == pat@[j],
        decreases pat.len() - k,
    {
        if hay[i + k] != pat[k] {
            assert(hay@.subrange(i as int, i + pat.len())[k as int] != pat@[k as int]);
            return false;
        }
        k += 1;
    }
    assert(hay@.subrange(i as int, i + pat.len()) =~= pat@);
    true
}

/// The first position at or after `from` where `pat` stands in `hay`.
pub fn find_from(hay: &Vec<char>, pat: &Vec<char>, from: usize) -> (r: Option<usize>)
    ensures
        match r {
            Some(i) => first_occurrence(hay@, pat@, from as int) == Some(i as int),
            None => first_occurrence(hay@, pat@, from as int) is None,
        },
{
    if pat.len() > hay.len() || from > hay.len() - pat.len() {
        return None;
    }
    let last: usize = hay.len() - pat.len();
    let mut i: usize = from;
    loop
        invariant
            from <= i <= last,
            last == hay.len() - pat.len(),
            first_occurrence(hay@, pat@, from as int) == first_occurrence(hay@, pat@, i as int),
        decreases last - i,
    {
        if matches_at(hay, pat, i) {
            return Some(i);
        }
        if i == last {
            assert(first_occurrence(hay@, pat@, i + 1) is None);
            return None;
        }
        i += 1;
    }
}

/// Whether `pat` stands somewhere in `hay`.
pub fn contains_chars(hay: &Vec<char>, pat: &Vec<char>) -> (r: bool)
    ensures
        r == contains_text(hay@, pat@),
{
    proof {
        lemma_first_occurrence(hay@, pat@, 0);
    }
    match find_from(hay, pat, 0) {
        Some(i) => true,
        None => false,
    }
}

/// Whether `pat` stands somewhere in `hay`.
pub fn str_contains(hay: &str, pat: &str) -> (r: bool)
    ensures
        r == contains_text(hay@, pat@),
{
    let h = chars_of(hay);
    let p = chars_of(pat);
    contains_chars(&h, &p)
}

/// Whether `s` begins with `pat`.
pub fn str_starts_with(s: &str, pat: &str) -> (r: bool)
    ensures
        r == starts_with(s@, pat@),
{
    let h = chars_of(s);
    let p = chars_of(pat);
    matches_at(&h, &p, 0)
}

/// Whether `s` ends with `pat`.
pub fn str_ends_with(s: &str, pat: &str) -> (r: bool)
    ensures
        r == ends_with(s@, pat@),
{
    let h = chars_of(s);
    let p = chars_of(pat);
    if p.len() > h.len() {
        false
    } else {
        matches_at(&h, &p, h.len() - p.len())
    }
}

/// Whether the two strings hold the same characters.
pub fn str_eq(a: &str, b: &str) -> (r: bool)
    ensures
        r == (a@ == b@),
{
    let x = chars_of(a);
    let y = chars_of(b);
    if x.len() != y.len() {
        return false;
    }
    let r = matches_at(&x, &y, 0);
    assert(x@.subrange(0, y@.len() as int) =~= x@);
    r
}

/// `s` with every occurrence of `pat` replaced by `to`, found from left to
/// right without overlap. An empty `pat` replaces nothing.
pub open spec fn replace_all(s: Seq<char>, pat: Seq<char>, to: Seq<char>) -> Seq<char>
    decreases s.len(),
{
    if pat.len() == 0 || s.len() < pat.len() {
        s
    } else if starts_with(s, pat) {
        to + replace_all(s.skip(pat.len() as int), pat, to)
    } else {
        seq![s[0]] + replace_all(s.skip(1), pat, to)
    }
}

/// Replacing a pattern that does not stand in a text changes nothing.
pub proof fn lemma_replace_absent(s: Seq<char>, pat: Seq<char>, to: Seq<char>)
    requires
        !contains_text(s, pat),
    ensures
        replace_all(s, pat, to) == s,
    decreases s.len(),
{
    if pat.len() == 0 || s.len() < pat.len() {
    } else {
        assert(!occurs_at(s, pat, 0));
        let rest = s.skip(1);
        assert forall|i: int| !occurs_at(rest, pat, i) by {
            if occurs_at(rest, pat, i) {
                assert(s.subrange(i + 1, i + 1 + pat.len()) =~= rest.subrange(i, i + pat.len()));
                assert(occurs_at(s, pat, i + 1));
            }
        }
        lemma_replace_absent(rest, pat, to);
        assert(seq![s[0]] + rest =~= s);
    }
}

/// Replacing a pattern that stands in a text leaves a text in which the
/// replacement stands.
pub proof fn lemma_replace_present(s: Seq<char>, pat: Seq<char>, to: Seq<char>)
    requires
        pat.len() > 0,
        contains_text(s, pat),
    ensures
        contains_text(replace_all(s, pat, to), to),
    decreases s.len(),
{
    let at = choose|i: int| occurs_at(s, pat, i);
    let out = replace_all(s, pat, to);
    if starts_with(s, pat) {
        assert(out.subrange(0, to.len() as int) =~= to);
        assert(occurs_at(out, to, 0));
    } else {
        let rest = s.skip(1);
        assert(rest.subrange(at - 1, at - 1 + pat.len()) =~= s.subrange(at, at + pat.len()));
        assert(occurs_at(rest, pat, at - 1));
        lemma_replace_present(rest, pat, to);
        let inner = replace_all(rest, pat, to);
        let j = choose|j: int| occurs_at(inner, to, j);
        assert(out.subrange(j + 1, j + 1 + to.len()) =~= inner.subrange(j, j + to.len()));
        assert(occurs_at(out, to, j + 1));
    }
}

/// The last `k` characters of `a` are the first `k` characters of `b`.
pub open spec fn overlap(a: Seq<char>, b: Seq<char>, k: int) -> bool {
    0 < k <= a.len() && k <= b.len() && a.subrange(a.len() - k, a.len() as int) == b.subrange(
        0,
        k,
    )
}

/// A pattern and its replacement stand apart: neither is empty, neither
/// stands in the other, no end of the replacement begins the pattern, and no
/// beginning of the replacement ends the pattern.
pub open spec fn apart(pat: Seq<char>, to: Seq<char>) -> bool {
    &&& pat.len() > 0
    &&& to.len() > 0
    &&& !contains_text(to, pat)
    &&& !contains_text(pat, to)
    &&& forall|k: int| 0 < k < pat.len() ==> !#[trigger] overlap(to, pat, k)
    &&& forall|k: int| 0 < k < to.len() ==> !#[trigger] overlap(pat, to, k)
}

/// Up to and with the first occurrence of the pattern, replacing copies what
/// stands before the occurrence and puts the replacement in its place.
pub proof fn lemma_replace_first(s: Seq<char>, pat: Seq<char>, to: Seq<char>, m: int)
    requires
        pat.len() > 0,
        occurs_at(s, pat, m),
        forall|j: int| 0 <= j < m ==> !occurs_at(s, pat, j),
    ensures
        replace_all(s, pat, to) == s.take(m) + to + replace_all(
            s.skip(m + pat.len()),
            pat,
            to,
        ),
    decreases m,
{
    if m == 0 {
        assert(s.take(0) + to =~= to);
    } else {
        let rest = s.skip(1);
        assert(!occurs_at(s, pat, 0));
        assert(rest.subrange(m - 1, m - 1 + pat.len()) =~= s.subrange(m, m + pat.len()));
        assert forall|j: int| 0 <= j < m - 1 implies !occurs_at(rest, pat, j) by {
            if occurs_at(rest, pat, j) {
                assert(s.subrange(j + 1, j + 1 + pat.len()) =~= rest.subrange(j, j + pat.len()));
                assert(occurs_at(s, pat, j + 1));
            }
        }
        lemma_replace_first(rest, pat, to, m - 1);
        assert(rest.skip(m - 1 + pat.len()) =~= s.skip(m + pat.len()));
        assert(seq![s[0]] + (rest.take(m - 1) + to + replace_all(
            s.skip(m + pat.len()),
            pat,
            to,
        )) =~= s.take(m) + to + replace_all(s.skip(m + pat.len()), pat, to));
    }
}

/// Where the pattern and its replacement stand apart, the pattern stands
/// nowhere in a text after it was replaced.
pub proof fn lemma_replace_clears(s: Seq<char>, pat: Seq<char>, to: Seq<char>)
    requires
        apart(pat, to),
    ensures
        !contains_text(replace_all(s, pat, to), pat),
    decreases s.len(),
{
    let out = replace_all(s, pat, to);
    if !contains_text(s, pat) {
        lemma_replace_absent(s, pat, to);
    } else {
        lemma_first_occurrence(s, pat, 0);
        let m = first_occurrence(s, pat, 0)->0;
        let tail = replace_all(s.skip(m + pat.len()), pat, to);
        lemma_replace_first(s, pat, to, m);
        lemma_replace_clears(s.skip(m + pat.len()), pat, to);
        let l = pat.len() as int;
        let t = to.len() as int;
        assert(out == s.take(m) + to + tail);
        assert forall|i: int| !occurs_at(out, pat, i) by {
            if occurs_at(out, pat, i) {
                let found = out.subrange(i, i + l);
                if i + l <= m {
                    assert(s.subrange(i, i + l) =~= found);
                    assert(occurs_at(s, pat, i));
                } else if i >= m + t {
                    assert(tail.subrange(i - m - t, i - m - t + l) =~= found);
                    assert(occurs_at(tail, pat, i - m - t));
                } else if i >= m {
                    if i + l <= m + t {
                        assert(to.subrange(i - m, i - m + l) =~= found);
                        assert(occurs_at(to, pat, i - m));
                    } else {
                        let k = m + t - i;
                        assert(to.subrange(t - k, t) =~= found.subrange(0, k));
                        assert(overlap(to, pat, k));
                    }
                } else {
                    if i + l >= m + t {
                        assert(found.subrange(m - i, m - i + t) =~= to);
                        assert(occurs_at(pat, to, m - i));
                    } else {
                        let k = i + l - m;
                        assert(found.subrange(l - k, l) =~= to.subrange(0, k));
                        assert(overlap(pat, to, k));
                    }
                }
            }
        }
    }
}

/// Whether the `k` characters of `a` from `from_a` on are those of `b` from
/// `from_b` on.
fn same_range(a: &Vec<char>, from_a: usize, b: &Vec<char>, from_b: usize, k: usize) -> (r: bool)
    requires
        from_a + k <= a.len(),
        from_b + k <= b.len(),
    ensures
        r == (a@.subrange(from_a as int, from_a + k) == b@.subrange(from_b as int, from_b + k)),
{
    let mut j: usize = 0;
    while j < k
        invariant
            j <= k,
            from_a + k <= a.len(),
            from_b + k <= b.len(),
            forall|x: int|
                0 <= x < j ==> (#[trigger] a@.subrange(from_a as int, from_a + k)[x])
                    == b@.subrange(from_b as int, from_b + k)[x],
        decreases k - j,
    {
        if a[from_a + j] != b[from_b + j] {
            assert(a@.subrange(from_a as int, from_a + k)[j as int] != b@.subrange(
                from_b as int,
                from_b + k,
            )[j as int]);
            return false;
        }
        j += 1;
    }
    assert(a@.subrange(from_a as int, from_a + k) =~= b@.subrange(from_b as int, from_b + k));
    true
}

/// Whether some end of `a` that is shorter than `limit` is a beginning of
/// `b`.
fn overlaps_below(a: &Vec<char>, b: &Vec<char>, limit: usize) -> (r: bool)
    ensures
        r == exists|k: int| 0 < k < limit && overlap(a@, b@, k),
{
    let mut k: usize = 1;
    while k < limit && k <= a.len() && k <= b.len()
        invariant
            1 <= k,
            forall|x: int| 0 < x < k ==> !overlap(a@, b@, x),
        decreases limit - k,
    {
        if same_range(a, a.len() - k, b, 0, k) {
            assert(overlap(a@, b@, k as int));
            return true;
        }
        k += 1;
    }
    false
}

/// Whether a pattern and its replacement stand apart.
pub fn stand_apart(pat: &str, to: &str) -> (r: bool)
    ensures
        r == apart(pat@, to@),
{
    let p = chars_of(pat);
    let t = chars_of(to);
    if p.len() == 0 || t.len() == 0 {
        return false;
    }
    if contains_chars(&t, &p) || contains_chars(&p, &t) {
        return false;
    }
    let first = overlaps_below(&t, &p, p.len());
    let second = overlaps_below(&p, &t, t.len());
    !first && !second
}

/// `hay` with every occurrence of `pat` replaced by `to`.
pub fn replace_chars(hay: &Vec<char>, pat: &Vec<char>, to: &Vec<char>) -> (out: Vec<char>)
    ensures
        out@ == replace_all(hay@, pat@, to@),
{
    let mut out: Vec<char> = Vec::new();
    if pat.len() == 0 {
        push_all(&mut out, hay);
        assert(out@ =~= hay@);
        return out;
    }
    let mut i: usize = 0;
    assert(hay@.skip(0) =~= hay@);
    assert(out@ + replace_all(hay@, pat@, to@) =~= replace_all(hay@, pat@, to@));
    while i < hay.len()
        invariant
            i <= hay.len(),
            pat.len() > 0,
            out@ + replace_all(hay@.skip(i as int), pat@, to@) == replace_all(hay@, pat@, to@),
        decreases hay.len() - i,
    {
        let ghost rest = hay@.skip(i as int);
        let ghost before = out@;
        if matches_at(hay, pat, i) {
            assert(rest.subrange(0, pat@.len() as int) =~= hay@.subrange(
                i as int,
                i + pat@.len(),
            ));
            assert(rest.skip(pat@.len() as int) =~= hay@.skip(i + pat@.len()));
            push_all(&mut out, to);
            i += pat.len();
            assert(before + (to@ + replace_all(hay@.skip(i as int), pat@, to@)) =~= out@
                + replace_all(hay@.skip(i as int), pat@, to@));
        } else if hay.len() - i >= pat.len() {
            assert(rest.subrange(0, pat@.len() as int) =~= hay@.subrange(i as int, i + pat@.len()));
            assert(rest.skip(1) =~= hay@.skip(i + 1));
            out.push(hay[i]);
            i += 1;
            assert(before + (seq![rest[0]] + replace_all(hay@.skip(i as int), pat@, to@)) =~= out@
                + replace_all(hay@.skip(i as int), pat@, to@));
        } else {
            // What is left is shorter than the pattern and stays as it is.
            let ghost tail = hay@.skip(i + 1);
            assert(replace_all(rest, pat@, to@) == rest);
            assert(replace_all(tail, pat@, to@) == tail);
            out.push(hay[i]);
            i += 1;
            assert(before + rest =~= out@ + tail);
        }
    }
    assert(hay@.skip(hay.len() as int) =~= Seq::<char>::empty());
    assert(out@ + Seq::<char>::empty() =~= out@);
    out
}

/// `s` with every occurrence of `pat` replaced by `to`.
pub fn str_replace(s: &str, pat: &str, to: &str) -> (out: String)
    ensures
        out@ == replace_all(s@, pat@, to@),
{
    let h = chars_of(s);
    let p = chars_of(pat);
    let t = chars_of(to);
    let r = replace_chars(&h, &p, &t);
    string_of(&r)
}

/// `a` followed by `b`.
pub fn join2(a: &str, b: &str) -> (out: String)
    ensures
        out@ == a@ + b@,
{
    let mut v = chars_of(a);
    push_str(&mut v, b);
    string_of(&v)
}

/// `a`, `b` and `c` in a row.
pub fn join3(a: &str, b: &str, c: &str) -> (out: String)
    ensures
        out@ == a@ + b@ + c@,
{
    let mut v = chars_of(a);
    push_str(&mut v, b);
    push_str(&mut v, c);
    string_of(&v)
}

/// A copy of `s`.
pub fn copy_str(s: &str) -> (out: String)
    ensures
        out@ == s@,
{
    let v = chars_of(s);
    string_of(&v)
}

/// A copy of an optional string.
pub fn copy_opt(s: &Option<String>) -> (out: Option<String>)
    ensures
        opt_view(out) == opt_view(*s),
{
    match s {
        Some(t) => Some(t.clone()),
        None => None,
    }
}

/// The characters of an optional string.
pub open spec fn opt_view(s: Option<String>) -> Option<Seq<char>> {
    match s {
        Some(t) => Some(t@),
        None => None,
    }
}

/// The characters of each string of a list.
pub open spec fn list_view(s: Seq<String>) -> Seq<Seq<char>> {
    s.map_values(|t: String| t@)
}

/// A copy of a list of strings.
pub fn copy_list(list: &Vec<String>) -> (out: Vec<String>)
    ensures
        list_view(out@) == list_view(list@),
{
    let mut out: Vec<String> = Vec::new();
    let mut i: usize = 0;
    while i < list.len()
        invariant
            i <= list.len(),
            out.len() == i,
            forall|j: int| 0 <= j < i ==> out@[j]@ == list@[j]@,
        decreases list.len() - i,
    {
        out.push(list[i].clone());
        i += 1;
    }
    assert(list_view(out@) =~= list_view(list@));
    out
}

/// A copy of a list of bytes.
pub fn copy_bytes(data: &Vec<u8>) -> (out: Vec<u8>)
    ensures
        out@ == data@,
{
    let mut out: Vec<u8> = Vec::new();
    let mut i: usize = 0;
    while i < data.len()
        invariant
            i <= data.len(),
            out@ == data@.take(i as int),
        decreases data.len() - i,
    {
        out.push(data[i]);
        assert(data@.take(i + 1) =~= data@.take(i as int).push(data@[i as int]));
        i += 1;
    }
    assert(data@.take(data.len() as int) =~= data@);
    out
}

/// Whether `c` is white space: the characters that Unicode lists as
/// `White_Space`.
pub open spec fn is_space(c: char) -> bool {
    let n = c as u32;
    (0x09 <= n <= 0x0D) || n == 0x20 || n == 0x85 || n == 0xA0 || n == 0x1680 || (0x2000 <= n
        <= 0x200A) || n == 0x2028 || n == 0x2029 || n == 0x202F || n == 0x205F || n == 0x3000
}

/// Whether `c` is white space.
pub fn is_space_char(c: char) -> (r: bool)
    ensures
        r == is_space(c),
{
    let n: u32 = c as u32;
    (0x09 <= n && n <= 0x0D) || n == 0x20 || n == 0x85 || n == 0xA0 || n == 0x1680 || (0x2000 <= n
        && n <= 0x200A) || n == 0x2028 || n == 0x2029 || n == 0x202F || n == 0x205F || n
        == 0x3000
}

/// `s` without the white space at its start.
pub open spec fn trim_start(s: Seq<char>) -> Seq<char>
    decreases s.len(),
{
    if s.len() > 0 && is_space(s[0]) {
        trim_start(s.skip(1))
    } else {
        s
    }
}

/// The number of white space characters at the start of `hay[from..]`.
pub fn skip_spaces(hay: &Vec<char>, from: usize) -> (to: usize)
    requires
        from <= hay.len(),
    ensures
        from <= to <= hay.len(),
        hay@.skip(to as int) == trim_start(hay@.skip(from as int)),
{
    let mut i: usize = from;
    while i < hay.len() && is_space_char(hay[i])
        invariant
            from <= i <= hay.len(),
            trim_start(hay@.skip(i as int)) == trim_start(hay@.skip(from as int)),
        decreases hay.len() - i,
    {
        assert(hay@.skip(i as int).skip(1) =~= hay@.skip(i + 1));
        i += 1;
    }
    i
}

/// The first line of `s`: what stands before the first line feed, without a
/// carriage return that ends it there. An empty text has no line.
pub open spec fn first_line(s: Seq<char>) -> Option<Seq<char>> {
    if s.len() == 0 {
        None
    } else {
        let end = line_end(s, 0);
        if end < s.len() && end > 0 && s[end - 1] == '\r' {
            Some(s.subrange(0, end - 1))
        } else {
            Some(s.subrange(0, end))
        }
    }
}

/// The position of the first line feed of `s` at or after `from`, or the
/// length of `s` where there is none.
pub open spec fn line_end(s: Seq<char>, from: int) -> int
    decreases s.len() - from,
{
    if from < 0 || from >= s.len() {
        s.len() as int
    } else if s[from] == '\n' {
        from
    } else {
        line_end(s, from + 1)
    }
}

/// The first line of `s`.
pub fn first_line_of(s: &str) -> (r: Option<String>)
    ensures
        opt_view(r) == first_line(s@),
{
    let v = chars_of(s);
    if v.len() == 0 {
        return None;
    }
    let mut end: usize = 0;
    while end < v.len() && v[end] != '\n'
        invariant
            end <= v.len(),
            line_end(v@, 0) == line_end(v@, end as int),
        decreases v.len() - end,
    {
        end += 1;
    }
    if end < v.len() && end > 0 && v[end - 1] == '\r' {
        Some(string_of_range(&v, 0, end - 1))
    } else {
        Some(string_of_range(&v, 0, end))
    }
}

/// The character of a decimal digit.
pub open spec fn digit(d: int) -> char {
    if d == 0 {
        '0'
    } else if d == 1 {
        '1'
    } else if d == 2 {
        '2'
    } else if d == 3 {
        '3'
    } else if d == 4 {
        '4'
    } else if d == 5 {
        '5'
    } else if d == 6 {
        '6'
    } else if d == 7 {
        '7'
    } else if d == 8 {
        '8'
    } else {
        '9'
    }
}

/// Whether `c` is one of the ten decimal digits.
pub open spec fn is_digit(c: char) -> bool {
    '0' <= c <= '9'
}

/// The decimal numeral of `n`, without leading zeros.
pub open spec fn decimal(n: nat) -> Seq<char>
    decreases n,
{
    if n < 10 {
        seq![digit(n as int)]
    } else {
        decimal(n / 10).push(digit((n % 10) as int))
    }
}

/// A numeral is not empty and holds digits only.
pub proof fn lemma_decimal_digits(n: nat)
    ensures
        decimal(n).len() >= 1,
        forall|i: int| 0 <= i < decimal(n).len() ==> is_digit(#[trigger] decimal(n)[i]),
    decreases n,
{
    if n >= 10 {
        lemma_decimal_digits(n / 10);
    }
}

/// Different numbers have different numerals.
pub proof fn lemma_decimal_injective(a: nat, b: nat)
    requires
        decimal(a) == decimal(b),
    ensures
        a == b,
    decreases a,
{
    lemma_decimal_digits(a / 10);
    lemma_decimal_digits(b / 10);
    if a < 10 && b < 10 {
        assert(decimal(a) == seq![digit(a as int)]);
        assert(decimal(b) == seq![digit(b as int)]);
        assert(seq![digit(a as int)][0] == seq![digit(b as int)][0]);
    } else if a >= 10 && b >= 10 {
        let x = decimal(a / 10);
        let y = decimal(b / 10);
        assert(x.push(digit((a % 10) as int)).drop_last() =~= x);
        assert(y.push(digit((b % 10) as int)).drop_last() =~= y);
        assert(x.push(digit((a % 10) as int)).last() == digit((a % 10) as int));
        assert(y.push(digit((b % 10) as int)).last() == digit((b % 10) as int));
        lemma_decimal_injective(a / 10, b / 10);
    } else if a < 10 {
        assert(decimal(a) == seq![digit(a as int)]);
        assert(decimal(b).len() == decimal(b / 10).len() + 1);
    } else {
        assert(decimal(b) == seq![digit(b as int)]);
        assert(decimal(a).len() == decimal(a / 10).len() + 1);
    }
}

/// Appends the decimal numeral of `n` to `out`.
pub fn push_decimal(out: &mut Vec<char>, n: usize)
    ensures
        final(out)@ == old(out)@ + decimal(n as nat),
    decreases n,
{
    if n >= 10 {
        push_decimal(out, n / 10);
    }
    let d: usize = n % 10;
    let c: char = if d == 0 {
        '0'
    } else if d == 1 {
        '1'
    } else if d == 2 {
        '2'
    } else if d == 3 {
        '3'
    } else if d == 4 {
        '4'
    } else if d == 5 {
        '5'
    } else if d == 6 {
        '6'
    } else if d == 7 {
        '7'
    } else if d == 8 {
        '8'
    } else {
        '9'
    };
    out.push(c);
    proof {
        if n >= 10 {
            assert(old(out)@ + decimal((n / 10) as nat).push(c) =~= (old(out)@ + decimal(
                (n / 10) as nat,
            )).push(c));
        } else {
            assert(old(out)@ + seq![c] =~= old(out)@.push(c));
        }
    }
}

/// The ASCII lower-case form of `c`; other characters stay as they are.
pub open spec fn fold_char(c: char) -> char {
    if 'A' <= c <= 'Z' {
        ((c as u32 + 32) as u8) as char
    } else {
        c
    }
}

/// `s` with its ASCII capital letters in lower case.
pub open spec fn fold(s: Seq<char>) -> Seq<char> {
    s.map_values(|c: char| fold_char(c))
}

/// The ASCII lower-case form of `c`.
pub fn fold_one(c: char) -> (r: char)
    ensures
        r == fold_char(c),
{
    if 'A' <= c && c <= 'Z' {
        ((c as u32 + 32) as u8) as char
    } else {
        c
    }
}

/// The characters of `s`, ASCII capital letters in lower case.
pub fn folded_chars(s: &str) -> (v: Vec<char>)
    ensures
        v@ == fold(s@),
{
    let src = chars_of(s);
    let mut v: Vec<char> = Vec::new();
    let mut i: usize = 0;
    while i < src.len()
        invariant
            i <= src.len(),
            v.len() == i,
            forall|j: int| 0 <= j < i ==> v@[j] == fold_char(src@[j]),
        decreases src.len() - i,
    {
        v.push(fold_one(src[i]));
        i += 1;
    }
    assert(v@ =~= fold(src@));
    v
}

/// The lower-case form of a text, as Unicode defines it.
pub uninterp spec fn lowercase_of(text: Seq<char>) -> Seq<char>;

/// `str::to_lowercase` gives the lower-case form of a text. The contract
/// only gives that form a name, the same for the same text.
#[verifier::external_body]
pub(crate) fn lowercase(text: &str) -> (lower: String)
    ensures
        lower@ == lowercase_of(text@),
{
    text.to_lowercase()
}

} // verus!
