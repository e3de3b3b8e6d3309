//! Character-sequence helpers shared by the parsers: whitespace trimming,
//! substring search, and conversions between `str`/`String` and `Vec<char>`.

use vstd::prelude::*;

verus! {

broadcast use vstd::string::group_string_axioms;

/// The characters that `char::is_whitespace` accepts (Unicode `White_Space`).
pub open spec fn is_ws(c: char) -> bool {
    ||| '\u{9}' <= c <= '\u{d}'
    ||| c == ' '
    ||| c == '\u{85}'
    ||| c == '\u{a0}'
    ||| c == '\u{1680}'
    ||| '\u{2000}' <= c <= '\u{200a}'
    ||| c == '\u{2028}'
    ||| c == '\u{2029}'
    ||| c == '\u{202f}'
    ||| c == '\u{205f}'
    ||| c == '\u{3000}'
}

/// A set of characters to trim: whitespace (`char::is_whitespace`) or one given character.
#[derive(Clone, Copy)]
pub enum CharClass {
    Whitespace,
    Exactly(char),
}

/// Whether `c` belongs to the class.
pub open spec fn in_class(k: CharClass, c: char) -> bool {
    match k {
        CharClass::Whitespace => is_ws(c),
        CharClass::Exactly(x) => c == x,
    }
}

/// First index at or after `i` whose character is outside the class (or `s.len()`).
pub open spec fn skip_class(s: Seq<char>, k: CharClass, i: int) -> int
    decreases s.len() - i,
{
    if i >= s.len() || i < 0 {
        s.len() as int
    } else if in_class(k, s[i]) {
        skip_class(s, k, i + 1)
    } else {
        i
    }
}

/// End of `s.subrange(0, j)` once trailing characters of the class are dropped.
pub open spec fn back_class(s: Seq<char>, k: CharClass, j: int) -> int
    decreases j,
{
    if j <= 0 || j > s.len() {
        0
    } else if in_class(k, s[j - 1]) {
        back_class(s, k, j - 1)
    } else {
        j
    }
}

/// `str::trim_matches`: `s` without leading and trailing characters of the class.
pub open spec fn trim_class(s: Seq<char>, k: CharClass) -> Seq<char> {
    let a = skip_class(s, k, 0);
    let b = back_class(s, k, s.len() as int);
    if a < b {
        s.subrange(a, b)
    } else {
        Seq::empty()
    }
}

/// `str::trim_start_matches`: `s` without leading characters of the class.
pub open spec fn trim_start_class(s: Seq<char>, k: CharClass) -> Seq<char> {
    s.subrange(skip_class(s, k, 0), s.len() as int)
}

/// `str::trim`: the text without leading and trailing whitespace.
pub open spec fn trim(s: Seq<char>) -> Seq<char> {
    trim_class(s, CharClass::Whitespace)
}

/// `pat` occurs in `s` at position `i`.
pub open spec fn occurs_at(s: Seq<char>, pat: Seq<char>, i: int) -> bool {
    0 <= i && i + pat.len() <= s.len() && s.subrange(i, i + pat.len()) == pat
}

/// The first position at or after `i` where `pat` occurs in `s` (`str::find` from `i`).
pub open spec fn find_from(s: Seq<char>, pat: Seq<char>, i: int) -> Option<int>
    decreases s.len() + 1 - i,
{
    if i < 0 || i + pat.len() > s.len() {
        None
    } else if s.subrange(i, i + pat.len()) == pat {
        Some(i)
    } else {
        find_from(s, pat, i + 1)
    }
}

/// `str::contains`.
pub open spec fn contains(s: Seq<char>, pat: Seq<char>) -> bool {
    find_from(s, pat, 0) is Some
}

/// What `find_from` returns is an occurrence, and there is none before it.
pub proof fn lemma_find_from(s: Seq<char>, pat: Seq<char>, i: int)
    requires
        0 <= i,
    ensures
        find_from(s, pat, i) matches Some(k) ==> i <= k && occurs_at(s, pat, k) && forall|j: int|
            i <= j < k ==> !occurs_at(s, pat, j),
        find_from(s, pat, i) is None ==> forall|j: int| i <= j ==> !occurs_at(s, pat, j),
    decreases s.len() + 1 - i,
{
    if i + pat.len() > s.len() {
    } else if s.subrange(i, i + pat.len()) == pat {
    } else {
        lemma_find_from(s, pat, i + 1);
    }
}

/// An occurrence at `k` means the search from any `i <= k` succeeds at or before `k`.
pub proof fn lemma_find_from_hit(s: Seq<char>, pat: Seq<char>, i: int, k: int)
    requires
        0 <= i <= k,
        occurs_at(s, pat, k),
    ensures
        find_from(s, pat, i) matches Some(f) && i <= f <= k,
{
    lemma_find_from(s, pat, i);
}

/// Copies the characters of a string slice into a vector.
pub fn chars_of(s: &str) -> (v: Vec<char>)
    ensures
        v@ == s@,
{
    let mut v: Vec<char> = Vec::new();
    for c in it: s.chars()
        invariant
            v@ == it.seq().take(it.index() as int),
    {
        v.push(c);
    }
    v
}

/// `String::push`: appends one character.
#[verifier::external_body]
fn push_char(s: &mut String, c: char)
    ensures
        final(s)@ == old(s)@.push(c),
{
    s.push(c);
}

/// Builds a `String` from the characters `v[lo..hi]`.
pub fn string_of(v: &Vec<char>, lo: usize, hi: usize) -> (s: String)
    requires
        lo <= hi <= v.len(),
    ensures
        s@ == v@.subrange(lo as int, hi as int),
{
    let mut s = String::new();
    let mut i = lo;
    while i < hi
        invariant
            lo <= i <= hi <= v.len(),
            s@ == v@.subrange(lo as int, i as int),
        decreases hi - i,
    {
        push_char(&mut s, v[i]);
        assert(v@.subrange(lo as int, i + 1) == v@.subrange(lo as int, i as int).push(v@[i as int]));
        i += 1;
    }
    s
}

/// Builds a `String` holding all of `v`.
pub fn string_from(v: &Vec<char>) -> (s: String)
    ensures
        s@ == v@,
{
    let s = string_of(v, 0, v.len());
    assert(v@.subrange(0, v@.len() as int) == v@);
    s
}

/// Appends `v[lo..hi]` to `out`.
pub fn push_range(out: &mut Vec<char>, v: &Vec<char>, lo: usize, hi: usize)
    requires
        lo <= hi <= v.len(),
    ensures
        final(out)@ == old(out)@ + v@.subrange(lo as int, hi as int),
{
    let ghost start = out@;
    let mut i = lo;
    while i < hi
        invariant
            lo <= i <= hi <= v.len(),
            out@ == start + v@.subrange(lo as int, i as int),
        decreases hi - i,
    {
        out.push(v[i]);
        assert(v@.subrange(lo as int, i + 1) == v@.subrange(lo as int, i as int).push(v@[i as int]));
        i += 1;
    }
}

/// Whether `pat` occurs in `v` at position `i`.
pub fn occurs_at_exec(v: &Vec<char>, pat: &Vec<char>, i: usize) -> (b: bool)
    ensures
        b == occurs_at(v@, pat@, i as int),
{
    if i > v.len() || pat.len() > v.len() - i {
        return false;
    }
    let mut k: usize = 0;
    while k < pat.len()
        invariant
            i + pat.len() <= v.len(),
            k <= pat.len(),
            forall|j: int| 0 <= j < k ==> v@[i + j] == pat@[j],
        decreases pat.len() - k,
    {
        if v[i + k] != pat[k] {
            assert(v@.subrange(i as int, i + pat.len())[k as int] != pat@[k as int]);
            return false;
        }
        k += 1;
    }
    assert(v@.subrange(i as int, i + pat.len()) == pat@);
    true
}

/// `str::find` from position `from`: the first occurrence of `pat` in `v` at or after `from`.
pub fn find_in(v: &Vec<char>, pat: &Vec<char>, from: usize) -> (r: Option<usize>)
    ensures
        r matches Some(k) ==> find_from(v@, pat@, from as int) == Some(k as int),
        r is None ==> find_from(v@, pat@, from as int) is None,
{
    if from > v.len() || pat.len() > v.len() - from {
        return None;
    }
    let mut i = from;
    let last = v.len() - pat.len();
    loop
        invariant
            from <= i <= last,
            last == v.len() - pat.len(),
            find_from(v@, pat@, i as int) == find_from(v@, pat@, from as int),
        decreases last - i,
    {
        if occurs_at_exec(v, pat, i) {
            return Some(i);
        }
        if i == last {
            assert(find_from(v@, pat@, i + 1) is None);
            return None;
        }
        i += 1;
    }
}

/// Builds a `String` from a string slice.
pub fn owned(s: &str) -> (r: String)
    ensures
        r@ == s@,
{
    String::from_str(s)
}

/// `char::is_whitespace`.
pub fn char_is_ws(c: char) -> (b: bool)
    ensures
        b == is_ws(c),
{
    ('\u{9}' <= c && c <= '\u{d}') || c == ' ' || c == '\u{85}' || c == '\u{a0}' || c == '\u{1680}'
        || ('\u{2000}' <= c && c <= '\u{200a}') || c == '\u{2028}' || c == '\u{2029}' || c
        == '\u{202f}' || c == '\u{205f}' || c == '\u{3000}'
}

/// Whether `c` belongs to the class.
pub fn class_has(k: CharClass, c: char) -> (b: bool)
    ensures
        b == in_class(k, c),
{
    match k {
        CharClass::Whitespace => char_is_ws(c),
        CharClass::Exactly(x) => c == x,
    }
}

/// The start of `trim_start_class(v[lo..hi], k)` inside `v`.
pub fn skip_class_from(v: &Vec<char>, lo: usize, hi: usize, k: CharClass) -> (a: usize)
    requires
        lo <= hi <= v.len(),
    ensures
        lo <= a <= hi,
        (a - lo) as int == skip_class(v@.subrange(lo as int, hi as int), k, 0),
        v@.subrange(a as int, hi as int) == trim_start_class(v@.subrange(lo as int, hi as int), k),
{
    let ghost s = v@.subrange(lo as int, hi as int);
    let mut a = lo;
    while a < hi && class_has(k, v[a])
        invariant
            lo <= a <= hi <= v.len(),
            s == v@.subrange(lo as int, hi as int),
            skip_class(s, k, (a - lo) as int) == skip_class(s, k, 0),
        decreases hi - a,
    {
        a += 1;
    }
    assert(skip_class(s, k, (a - lo) as int) == (a - lo) as int);
    assert(v@.subrange(a as int, hi as int) == s.subrange((a - lo) as int, s.len() as int));
    a
}

/// The bounds of `trim_class(v[lo..hi], k)` inside `v`.
pub fn trim_class_bounds(v: &Vec<char>, lo: usize, hi: usize, k: CharClass) -> (r: (usize, usize))
    requires
        lo <= hi <= v.len(),
    ensures
        lo <= r.0 <= r.1 <= hi,
        v@.subrange(r.0 as int, r.1 as int) == trim_class(v@.subrange(lo as int, hi as int), k),
{
    let ghost s = v@.subrange(lo as int, hi as int);
    let a = skip_class_from(v, lo, hi, k);
    let mut b = hi;
    while b > a && class_has(k, v[b - 1])
        invariant
            lo <= a <= b <= hi <= v.len(),
            s == v@.subrange(lo as int, hi as int),
            back_class(s, k, (b - lo) as int) == back_class(s, k, s.len() as int),
        decreases b,
    {
        b -= 1;
    }
    proof {
        lemma_back_class_bounds(s, k, (b - lo) as int);
        if b > a {
            assert(back_class(s, k, (b - lo) as int) == (b - lo) as int);
        }
        assert(v@.subrange(a as int, b as int) == s.subrange((a - lo) as int, (b - lo) as int));
    }
    if b > a {
        (a, b)
    } else {
        (a, a)
    }
}

/// The bounds of `trim(v[lo..hi])` inside `v`.
pub fn trim_bounds(v: &Vec<char>, lo: usize, hi: usize) -> (r: (usize, usize))
    requires
        lo <= hi <= v.len(),
    ensures
        lo <= r.0 <= r.1 <= hi,
        v@.subrange(r.0 as int, r.1 as int) == trim(v@.subrange(lo as int, hi as int)),
{
    trim_class_bounds(v, lo, hi, CharClass::Whitespace)
}

/// `str::trim`, returning an owned string.
pub fn trimmed(s: &str) -> (r: String)
    ensures
        r@ == trim(s@),
{
    let v = chars_of(s);
    let (a, b) = trim_bounds(&v, 0, v.len());
    assert(v@.subrange(0, v@.len() as int) == v@);
    string_of(&v, a, b)
}

pub proof fn lemma_skip_class(s: Seq<char>, k: CharClass, i: int)
    requires
        0 <= i <= s.len(),
    ensures
        i <= skip_class(s, k, i) <= s.len(),
        skip_class(s, k, i) < s.len() ==> !in_class(k, s[skip_class(s, k, i)]),
    decreases s.len() - i,
{
    if i < s.len() && in_class(k, s[i]) {
        lemma_skip_class(s, k, i + 1);
    }
}

pub proof fn lemma_back_class_bounds(s: Seq<char>, k: CharClass, j: int)
    requires
        0 <= j <= s.len(),
    ensures
        0 <= back_class(s, k, j) <= j,
        back_class(s, k, j) > 0 ==> !in_class(k, s[back_class(s, k, j) - 1]),
    decreases j,
{
    if j > 0 && in_class(k, s[j - 1]) {
        lemma_back_class_bounds(s, k, j - 1);
    }
}

/// First index at or after `i` holding `c` in `s`, or `s.len()`.
pub open spec fn next_char(s: Seq<char>, c: char, i: int) -> int
    decreases s.len() - i,
{
    if i < 0 || i >= s.len() {
        s.len() as int
    } else if s[i] == c {
        i
    } else {
        next_char(s, c, i + 1)
    }
}

pub proof fn lemma_next_char(s: Seq<char>, c: char, i: int)
    requires
        0 <= i <= s.len(),
    ensures
        i <= next_char(s, c, i) <= s.len(),
        next_char(s, c, i) < s.len() ==> s[next_char(s, c, i)] == c,
        forall|j: int| i <= j < next_char(s, c, i) ==> s[j] != c,
    decreases s.len() - i,
{
    if i < s.len() && s[i] != c {
        lemma_next_char(s, c, i + 1);
    }
}

/// The first index at or after `i` holding `c` in `v`, or `v.len()`.
pub fn next_char_in(v: &Vec<char>, c: char, i: usize) -> (r: usize)
    requires
        i <= v.len(),
    ensures
        r as int == next_char(v@, c, i as int),
        i <= r <= v.len(),
{
    proof {
        lemma_next_char(v@, c, i as int);
    }
    let mut j = i;
    while j < v.len() && v[j] != c
        invariant
            i <= j <= v.len(),
            next_char(v@, c, j as int) == next_char(v@, c, i as int),
        decreases v.len() - j,
    {
        j += 1;
    }
    j
}

/// One line of `str::lines` ending at `e`: a `\r` right before a `\n` is dropped too.
pub open spec fn line_text(s: Seq<char>, i: int, e: int) -> Seq<char> {
    if e < s.len() && e > i && s[e - 1] == '\r' {
        s.subrange(i, e - 1)
    } else {
        s.subrange(i, e)
    }
}

/// `str::lines` of `s` from position `i`: split at `\n` (or `\r\n`); a final line ending
/// adds no empty line.
pub open spec fn lines_from(s: Seq<char>, i: int) -> Seq<Seq<char>>
    decreases s.len() + 1 - i,
{
    if i < 0 || i >= s.len() {
        Seq::empty()
    } else {
        let e = next_char(s, '\n', i);
        proof {
            lemma_next_char(s, '\n', i);
        }
        seq![line_text(s, i, e)] + lines_from(s, e + 1)
    }
}

/// `str::lines`.
pub open spec fn lines(s: Seq<char>) -> Seq<Seq<char>> {
    lines_from(s, 0)
}

/// `str::split(c)` of `s` from position `i` (`0 <= i <= s.len()`): there is always at
/// least one piece, possibly empty.
pub open spec fn split_from(s: Seq<char>, c: char, i: int) -> Seq<Seq<char>>
    decreases s.len() + 1 - i,
{
    if i < 0 || i > s.len() {
        Seq::empty()
    } else if next_char(s, c, i) < s.len() {
        proof {
            lemma_next_char(s, c, i);
        }
        seq![s.subrange(i, next_char(s, c, i))] + split_from(s, c, next_char(s, c, i) + 1)
    } else {
        seq![s.subrange(i, s.len() as int)]
    }
}

/// `str::split(c)`.
pub open spec fn split(s: Seq<char>, c: char) -> Seq<Seq<char>> {
    split_from(s, c, 0)
}

/// Whether two strings hold the same characters.
pub fn same_text(a: &str, b: &str) -> (r: bool)
    ensures
        r == (a@ == b@),
{
    let av = chars_of(a);
    let bv = chars_of(b);
    if av.len() != bv.len() {
        assert(av@.len() != bv@.len());
        return false;
    }
    let mut i: usize = 0;
    while i < av.len()
        invariant
            i <= av.len() == bv.len(),
            av@ == a@,
            bv@ == b@,
            forall|j: int| 0 <= j < i ==> av@[j] == bv@[j],
        decreases av.len() - i,
    {
        if av[i] != bv[i] {
            assert(av@[i as int] != bv@[i as int]);
            return false;
        }
        i += 1;
    }
    assert(av@ =~= bv@);
    true
}

/// Every `from` replaced by `to` (`str::replace` with single characters).
pub open spec fn replace_char(s: Seq<char>, from: char, to: char) -> Seq<char> {
    s.map_values(|c: char| if c == from { to } else { c })
}

/// `s` without any `c` (`str::replace(c, "")`).
pub open spec fn remove_char(s: Seq<char>, c: char) -> Seq<char>
    decreases s.len(),
{
    if s.len() == 0 {
        s
    } else if s.last() == c {
        remove_char(s.drop_last(), c)
    } else {
        remove_char(s.drop_last(), c).push(s.last())
    }
}

/// Appends `s` with every `from` replaced by `to`.
pub fn push_replaced(out: &mut Vec<char>, s: &str, from: char, to: char)
    ensures
        final(out)@ == old(out)@ + replace_char(s@, from, to),
{
    let v = chars_of(s);
    let ghost start = out@;
    let mut i: usize = 0;
    while i < v.len()
        invariant
            i <= v.len(),
            v@ == s@,
            out@ == start + replace_char(v@.take(i as int), from, to),
        decreases v.len() - i,
    {
        let c = v[i];
        if c == from {
            out.push(to);
        } else {
            out.push(c);
        }
        assert(replace_char(v@.take(i + 1), from, to) =~= replace_char(v@.take(i as int), from, to).push(
            if c == from { to } else { c },
        ));
        i += 1;
    }
    assert(v@.take(v@.len() as int) =~= v@);
}

/// Appends `s` without any `c`.
pub fn push_removed(out: &mut Vec<char>, s: &str, c: char)
    ensures
        final(out)@ == old(out)@ + remove_char(s@, c),
{
    let v = chars_of(s);
    let ghost start = out@;
    let mut i: usize = 0;
    while i < v.len()
        invariant
            i <= v.len(),
            v@ == s@,
            out@ == start + remove_char(v@.take(i as int), c),
        decreases v.len() - i,
    {
        assert(v@.take(i + 1).drop_last() =~= v@.take(i as int));
        if v[i] != c {
            out.push(v[i]);
        }
        i += 1;
    }
    assert(v@.take(v@.len() as int) =~= v@);
}

/// Appends all of `s`.
pub fn push_str(out: &mut Vec<char>, s: &str)
    ensures
        final(out)@ == old(out)@ + s@,
{
    let v = chars_of(s);
    push_range(out, &v, 0, v.len());
    assert(v@.subrange(0, v@.len() as int) =~= v@);
}

/// `[T]::join(sep)` over strings.
pub open spec fn join(list: Seq<Seq<char>>, sep: Seq<char>) -> Seq<char>
    decreases list.len(),
{
    if list.len() == 0 {
        Seq::empty()
    } else if list.len() == 1 {
        list[0]
    } else {
        join(list.drop_last(), sep) + sep + list.last()
    }
}

/// The views of a list of string slices.
pub open spec fn views(list: Seq<&str>) -> Seq<Seq<char>> {
    list.map_values(|a: &str| a@)
}

/// Appends the items of `list` separated by `sep`.
pub fn push_joined(out: &mut Vec<char>, list: &[&str], sep: &str)
    ensures
        final(out)@ == old(out)@ + join(views(list@), sep@),
{
    let ghost start = out@;
    let mut i: usize = 0;
    while i < list.len()
        invariant
            i <= list.len(),
            out@ == start + join(views(list@).take(i as int), sep@),
        decreases list.len() - i,
    {
        let ghost prev = out@;
        assert(views(list@).take(i + 1).drop_last() =~= views(list@).take(i as int));
        assert(views(list@).take(i + 1).last() == list@[i as int]@);
        if i > 0 {
            push_str(out, sep);
        } else {
            assert(join(views(list@).take(0), sep@) =~= Seq::<char>::empty());
        }
        push_str(out, list[i]);
        assert(out@ =~= start + join(views(list@).take(i + 1), sep@));
        i += 1;
    }
    assert(views(list@).take(list.len() as int) =~= views(list@));
}

/// `str::lines`, each line as characters.
pub fn lines_of(s: &str) -> (r: Vec<Vec<char>>)
    ensures
        r.deep_view() == lines(s@),
{
    let v = chars_of(s);
    let mut out: Vec<Vec<char>> = Vec::new();
    let mut i: usize = 0;
    while i < v.len()
        invariant
            i <= v.len(),
            v@ == s@,
            out.deep_view() + lines_from(v@, i as int) == lines(s@),
        decreases v.len() - i,
    {
        let e = next_char_in(&v, '\n', i);
        let le = if e < v.len() && e > i && v[e - 1] == '\r' {
            e - 1
        } else {
            e
        };
        let mut line: Vec<char> = Vec::new();
        push_range(&mut line, &v, i, le);
        let ghost ls = lines_from(v@, i as int);
        let ghost before = out.deep_view();
        proof {
            lemma_next_char(v@, '\n', i as int);
            assert(line@ == line_text(v@, i as int, e as int));
            assert(ls[0] == line@);
            assert(ls.drop_first() == lines_from(v@, e + 1));
            assert(line.deep_view() =~= line@);
        }
        out.push(line);
        assert(out.deep_view() =~= before.push(ls[0]));
        assert(out.deep_view() + ls.drop_first() =~= before + ls);
        if e < v.len() {
            i = e + 1;
        } else {
            assert(lines_from(v@, e + 1) =~= lines_from(v@, v@.len() as int));
            i = v.len();
        }
    }
    assert(lines_from(v@, v@.len() as int) =~= Seq::<Seq<char>>::empty());
    assert(out.deep_view() + Seq::<Seq<char>>::empty() =~= out.deep_view());
    out
}

} // verus!
