//! Why patching a task XML settles it: setting names and values are runs of ASCII
//! letters and digits, so in `<tag>`, `<tag>val</tag>` and `<Settings>` a `<` is either
//! the first character or the start of a closing `</`. Two such pieces that differ can
//! therefore never overlap in a text, and a splice neither creates nor destroys an
//! occurrence of another piece.

use vstd::prelude::*;
use crate::text::{contains, lemma_find_from, lemma_find_from_hit, occurs_at, find_from};
use crate::task_xml::{
    element, open_tag, settings_marker, patch_setting, relax_settings, splice, setting_settled,
    lemma_patch_shape, law_patch_twice, law_relax_settled_unchanged,
};

verus! {

/// An ASCII letter or digit.
pub open spec fn is_word_char(c: char) -> bool {
    ('0' <= c <= '9') || ('a' <= c <= 'z') || ('A' <= c <= 'Z')
}

/// A non-empty run of ASCII letters and digits, as the setting names and values are.
pub open spec fn is_word(s: Seq<char>) -> bool {
    s.len() > 0 && forall|i: int| 0 <= i < s.len() ==> is_word_char(#[trigger] s[i])
}

/// `pat` occurs in `s` at one position at most.
pub open spec fn occurs_at_most_once(s: Seq<char>, pat: Seq<char>) -> bool {
    forall|i: int, j: int| occurs_at(s, pat, i) && occurs_at(s, pat, j) ==> i == j
}

/// A piece of markup that starts with `<` and a character other than `/`, and whose
/// every later `<` opens a closing `</`.
spec fn tag_shaped(p: Seq<char>) -> bool {
    &&& p.len() >= 2
    &&& p[0] == '<'
    &&& p[1] != '/'
    &&& forall|k: int| 0 < k < p.len() && #[trigger] p[k] == '<' ==> k + 1 < p.len() && p[k + 1] == '/'
}

/// `p` starts with `<w>`.
spec fn heads(p: Seq<char>, w: Seq<char>) -> bool {
    &&& p.len() >= w.len() + 2
    &&& p[0] == '<'
    &&& forall|m: int| 0 <= m < w.len() ==> #[trigger] p[1 + m] == w[m]
    &&& p[w.len() as int + 1] == '>'
}

/// `p` and `q` differ at a position both have.
spec fn clash(p: Seq<char>, q: Seq<char>) -> bool {
    exists|k: int| 0 <= k < p.len() && k < q.len() && #[trigger] p[k] != q[k]
}

proof fn lemma_element_chars(t: Seq<char>, v: Seq<char>)
    ensures
        element(t, v).len() == 2 * t.len() + v.len() + 5,
        element(t, v)[0] == '<',
        forall|m: int| 0 <= m < t.len() ==> #[trigger] element(t, v)[1 + m] == t[m],
        element(t, v)[t.len() as int + 1] == '>',
        forall|m: int| 0 <= m < v.len() ==> #[trigger] element(t, v)[t.len() + 2 + m] == v[m],
        element(t, v)[t.len() + 2 + v.len() as int] == '<',
        element(t, v)[t.len() + 3 + v.len() as int] == '/',
        forall|m: int|
            0 <= m < t.len() ==> #[trigger] element(t, v)[t.len() + 4 + v.len() + m] == t[m],
        element(t, v)[2 * t.len() + v.len() as int + 4] == '>',
{
    reveal_strlit("<");
    reveal_strlit(">");
    reveal_strlit("</");
    let e = element(t, v);
    let a1 = "<"@ + t;
    let a2 = a1 + ">"@;
    let a3 = a2 + v;
    let a4 = a3 + "</"@;
    let a5 = a4 + t;
    assert(e == a5 + ">"@);
    assert forall|m: int| 0 <= m < t.len() implies #[trigger] e[1 + m] == t[m] by {
        assert(a1[1 + m] == t[m]);
    }
    assert forall|m: int| 0 <= m < v.len() implies #[trigger] e[t.len() + 2 + m] == v[m] by {
        assert(a3[t.len() + 2 + m] == v[m]);
    }
    assert forall|m: int| 0 <= m < t.len() implies #[trigger] e[t.len() + 4 + v.len() + m] == t[m] by {
        assert(a5[t.len() + 4 + v.len() + m] == t[m]);
    }
}

proof fn lemma_open_chars(w: Seq<char>)
    ensures
        open_tag(w).len() == w.len() + 2,
        heads(open_tag(w), w),
{
    reveal_strlit("<");
    reveal_strlit(">");
    let a1 = "<"@ + w;
    assert(open_tag(w) == a1 + ">"@);
    assert forall|m: int| 0 <= m < w.len() implies #[trigger] open_tag(w)[1 + m] == w[m] by {
        assert(a1[1 + m] == w[m]);
    }
}

proof fn lemma_open_shaped(w: Seq<char>)
    requires
        is_word(w),
    ensures
        tag_shaped(open_tag(w)),
        heads(open_tag(w), w),
{
    lemma_open_chars(w);
    let p = open_tag(w);
    assert(p[1] == w[0]);
    assert forall|k: int| 0 < k < p.len() && #[trigger] p[k] == '<' implies k + 1 < p.len() && p[k
        + 1] == '/' by {
        if k <= w.len() {
            let m = k - 1;
            assert(p[1 + m] == w[m]);
        }
    }
}

proof fn lemma_element_shaped(t: Seq<char>, v: Seq<char>)
    requires
        is_word(t),
        is_word(v),
    ensures
        tag_shaped(element(t, v)),
        heads(element(t, v), t),
{
    lemma_element_chars(t, v);
    let e = element(t, v);
    let l = t.len() as int;
    let n = v.len() as int;
    assert(e[1] == t[0]) by {
        let z: int = 0;
        assert(e[1 + z] == t[z]);
    }
    assert forall|k: int| 0 < k < e.len() && #[trigger] e[k] == '<' implies k + 1 < e.len() && e[k
        + 1] == '/' by {
        if k <= l {
            let m = k - 1;
            assert(e[1 + m] == t[m]);
        } else if k == l + 1 {
        } else if k < l + 2 + n {
            let m = k - l - 2;
            assert(e[l + 2 + m] == v[m]);
        } else if k == l + 2 + n {
        } else if k == l + 3 + n {
        } else if k < l + 4 + n + l {
            let m = k - l - 4 - n;
            assert(e[l + 4 + n + m] == t[m]);
        }
    }
}

/// Two pieces that open with different names differ within their opening tags.
proof fn lemma_clash_heads(p: Seq<char>, q: Seq<char>, w1: Seq<char>, w2: Seq<char>)
    requires
        heads(p, w1),
        heads(q, w2),
        is_word(w1),
        is_word(w2),
        w1 != w2,
    ensures
        clash(p, q),
{
    if w1.len() < w2.len() {
        let k = w1.len() as int + 1;
        let m = w1.len() as int;
        assert(q[1 + m] == w2[m]);
        assert(p[k] != q[k]);
    } else if w2.len() < w1.len() {
        let k = w2.len() as int + 1;
        let m = w2.len() as int;
        assert(p[1 + m] == w1[m]);
        assert(p[k] != q[k]);
    } else {
        assert(exists|m: int| 0 <= m < w1.len() && w1[m] != w2[m]) by {
            if !(exists|m: int| 0 <= m < w1.len() && w1[m] != w2[m]) {
                assert(w1 =~= w2);
            }
        }
        let m = choose|m: int| 0 <= m < w1.len() && w1[m] != w2[m];
        assert(p[1 + m] == w1[m]);
        assert(q[1 + m] == w2[m]);
    }
}

/// `<t>v1</t>` and `<t>v2</t>` differ within the value when the values differ.
proof fn lemma_clash_values(t: Seq<char>, v1: Seq<char>, v2: Seq<char>)
    requires
        is_word(t),
        is_word(v1),
        is_word(v2),
        v1 != v2,
    ensures
        clash(element(t, v1), element(t, v2)),
{
    lemma_element_chars(t, v1);
    lemma_element_chars(t, v2);
    let p = element(t, v1);
    let q = element(t, v2);
    let l = t.len() as int;
    if v1.len() < v2.len() {
        let m = v1.len() as int;
        assert(q[l + 2 + m] == v2[m]);
        assert(p[l + 2 + m] != q[l + 2 + m]);
    } else if v2.len() < v1.len() {
        let m = v2.len() as int;
        assert(p[l + 2 + m] == v1[m]);
        assert(p[l + 2 + m] != q[l + 2 + m]);
    } else {
        assert(exists|m: int| 0 <= m < v1.len() && v1[m] != v2[m]) by {
            if !(exists|m: int| 0 <= m < v1.len() && v1[m] != v2[m]) {
                assert(v1 =~= v2);
            }
        }
        let m = choose|m: int| 0 <= m < v1.len() && v1[m] != v2[m];
        assert(p[l + 2 + m] == v1[m]);
        assert(q[l + 2 + m] == v2[m]);
    }
}

/// Two tag-shaped pieces never overlap with the second starting strictly inside the first.
proof fn lemma_no_inner_start(r: Seq<char>, p: Seq<char>, q: Seq<char>, j: int, i: int)
    requires
        tag_shaped(p),
        tag_shaped(q),
        occurs_at(r, p, j),
        occurs_at(r, q, i),
    ensures
        !(j < i < j + p.len()),
{
    if j < i < j + p.len() {
    let d = i - j;
    assert(r.subrange(j, j + p.len())[d] == r[i]);
    assert(r.subrange(i, i + q.len())[0] == r[i]);
    assert(p[d] == '<');
    assert(r.subrange(j, j + p.len())[d + 1] == r[i + 1]);
    assert(r.subrange(i, i + q.len())[1] == r[i + 1]);
    }
}

/// Occurrences of two clashing tag-shaped pieces are disjoint.
proof fn lemma_disjoint(r: Seq<char>, p: Seq<char>, q: Seq<char>, j: int, i: int)
    requires
        tag_shaped(p),
        tag_shaped(q),
        clash(p, q),
        occurs_at(r, p, j),
        occurs_at(r, q, i),
    ensures
        j + p.len() <= i || i + q.len() <= j,
{
    if j == i {
        let k = choose|k: int| 0 <= k < p.len() && k < q.len() && #[trigger] p[k] != q[k];
        assert(r.subrange(j, j + p.len())[k] == r[j + k]);
        assert(r.subrange(i, i + q.len())[k] == r[i + k]);
    } else if j < i && i < j + p.len() {
        lemma_no_inner_start(r, p, q, j, i);
    } else if i < j && j < i + q.len() {
        lemma_no_inner_start(r, q, p, i, j);
    }
}

/// How occurrences sit in `a + e + b`.
proof fn lemma_occ_concat(a: Seq<char>, e: Seq<char>, b: Seq<char>, p: Seq<char>, j: int)
    ensures
        occurs_at(a + e + b, p, j) && j + p.len() <= a.len() ==> occurs_at(a, p, j),
        occurs_at(a + e + b, p, j) && j >= a.len() + e.len() ==> occurs_at(
            b,
            p,
            j - a.len() - e.len(),
        ),
        occurs_at(a, p, j) ==> occurs_at(a + e + b, p, j),
        occurs_at(b, p, j) ==> occurs_at(a + e + b, p, a.len() + e.len() + j),
        occurs_at(a + e + b, e, a.len() as int),
{
    let r = a + e + b;
    let n = p.len() as int;
    if 0 <= j && j + n <= a.len() {
        assert(r.subrange(j, j + n) =~= a.subrange(j, j + n));
    }
    let o = (a.len() + e.len()) as int;
    if j >= o && j + n <= r.len() {
        assert(r.subrange(j, j + n) =~= b.subrange(j - o, j - o + n));
    }
    if 0 <= j && j + n <= b.len() {
        assert(r.subrange(o + j, o + j + n) =~= b.subrange(j, j + n));
    }
    assert(r.subrange(a.len() as int, o) =~= e);
}

/// An occurrence of a piece that clashes with `e` lies wholly before or wholly after `e`.
proof fn lemma_in_parts(a: Seq<char>, e: Seq<char>, b: Seq<char>, p: Seq<char>, j: int)
    requires
        tag_shaped(p),
        tag_shaped(e),
        clash(p, e),
        occurs_at(a + e + b, p, j),
    ensures
        occurs_at(a, p, j) || occurs_at(b, p, j - a.len() - e.len()),
        occurs_at(a, p, j) ==> j + p.len() <= a.len(),
        occurs_at(b, p, j - a.len() - e.len()) ==> j >= a.len() + e.len(),
{
    lemma_occ_concat(a, e, b, p, j);
    lemma_disjoint(a + e + b, p, e, j, a.len() as int);
}

/// Putting `e` in place of `m` neither creates an occurrence of a piece clashing with `e`
/// nor lets one occur twice.
proof fn lemma_swap_counts(a: Seq<char>, m: Seq<char>, e: Seq<char>, b: Seq<char>, p: Seq<char>)
    requires
        tag_shaped(p),
        tag_shaped(e),
        clash(p, e),
    ensures
        occurs_at_most_once(a + m + b, p) ==> occurs_at_most_once(a + e + b, p),
        !contains(a + m + b, p) ==> !contains(a + e + b, p),
{
    let r1 = a + m + b;
    let r2 = a + e + b;
    if occurs_at_most_once(r1, p) {
        assert forall|j1: int, j2: int| occurs_at(r2, p, j1) && occurs_at(r2, p, j2) implies j1
            == j2 by {
            lemma_in_parts(a, e, b, p, j1);
            lemma_in_parts(a, e, b, p, j2);
            let g1 = if occurs_at(a, p, j1) {
                j1
            } else {
                a.len() + m.len() + (j1 - a.len() - e.len())
            };
            let g2 = if occurs_at(a, p, j2) {
                j2
            } else {
                a.len() + m.len() + (j2 - a.len() - e.len())
            };
            lemma_occ_concat(a, m, b, p, j1);
            lemma_occ_concat(a, m, b, p, j2);
            lemma_occ_concat(a, m, b, p, j1 - a.len() - e.len());
            lemma_occ_concat(a, m, b, p, j2 - a.len() - e.len());
            assert(occurs_at(r1, p, g1));
            assert(occurs_at(r1, p, g2));
        }
    }
    if contains(r2, p) {
        lemma_find_from(r2, p, 0);
        let j = find_from(r2, p, 0)->0;
        lemma_in_parts(a, e, b, p, j);
        lemma_occ_concat(a, m, b, p, j);
        lemma_occ_concat(a, m, b, p, j - a.len() - e.len());
        if occurs_at(a, p, j) {
            lemma_find_from_hit(r1, p, 0, j);
        } else {
            lemma_find_from_hit(r1, p, 0, a.len() + m.len() + (j - a.len() - e.len()));
        }
    }
}

/// An occurrence of a piece clashing with the replaced `m` survives the replacement.
proof fn lemma_swap_keeps(a: Seq<char>, m: Seq<char>, e: Seq<char>, b: Seq<char>, p: Seq<char>)
    requires
        tag_shaped(p),
        tag_shaped(m),
        clash(p, m),
        contains(a + m + b, p),
    ensures
        contains(a + e + b, p),
{
    let r1 = a + m + b;
    lemma_find_from(r1, p, 0);
    let j = find_from(r1, p, 0)->0;
    lemma_in_parts(a, m, b, p, j);
    lemma_occ_concat(a, e, b, p, j);
    lemma_occ_concat(a, e, b, p, j - a.len() - m.len());
    if occurs_at(a, p, j) {
        lemma_find_from_hit(a + e + b, p, 0, j);
    } else {
        lemma_find_from_hit(a + e + b, p, 0, a.len() + e.len() + (j - a.len() - m.len()));
    }
}

/// An occurrence of a piece clashing with `<Settings>` survives an insertion right after
/// `<Settings>`.
proof fn lemma_insert_keeps(x: Seq<char>, p0: int, e: Seq<char>, p: Seq<char>)
    requires
        tag_shaped(p),
        tag_shaped(settings_marker()),
        clash(p, settings_marker()),
        occurs_at(x, settings_marker(), p0),
        contains(x, p),
    ensures
        contains(splice(x, p0 + settings_marker().len(), 0, e), p),
{
    let at = p0 + settings_marker().len();
    let a = x.subrange(0, at);
    let b = x.subrange(at, x.len() as int);
    assert(x =~= a + Seq::<char>::empty() + b);
    assert(splice(x, at, 0, e) == a + e + b);
    lemma_find_from(x, p, 0);
    let j = find_from(x, p, 0)->0;
    lemma_disjoint(x, p, settings_marker(), j, p0);
    lemma_occ_concat(a, Seq::<char>::empty(), b, p, j);
    lemma_occ_concat(a, Seq::<char>::empty(), b, p, j - a.len());
    lemma_occ_concat(a, e, b, p, j);
    lemma_occ_concat(a, e, b, p, j - a.len());
    if j + p.len() <= p0 {
        lemma_find_from_hit(a + e + b, p, 0, j);
    } else {
        lemma_find_from_hit(a + e + b, p, 0, a.len() + e.len() + (j - a.len()));
    }
}

/// A patch creates no occurrence of a piece clashing with the value it writes, nor a second
/// one.
proof fn lemma_patch_counts(y: Seq<char>, t: Seq<char>, f: Seq<char>, to: Seq<char>, p: Seq<char>)
    requires
        is_word(t),
        is_word(to),
        tag_shaped(p),
        clash(p, element(t, to)),
    ensures
        occurs_at_most_once(y, p) ==> occurs_at_most_once(patch_setting(y, t, f, to), p),
        !contains(y, p) ==> !contains(patch_setting(y, t, f, to), p),
{
    let old = element(t, f);
    let new = element(t, to);
    lemma_element_shaped(t, to);
    lemma_find_from(y, old, 0);
    lemma_find_from(y, settings_marker(), 0);
    match find_from(y, old, 0) {
        Some(i) => {
            let a = y.subrange(0, i);
            let m = y.subrange(i, i + old.len());
            let b = y.subrange(i + old.len(), y.len() as int);
            assert(y =~= a + m + b);
            lemma_swap_counts(a, m, new, b, p);
        },
        None => {
            if !contains(y, open_tag(t)) {
                match find_from(y, settings_marker(), 0) {
                    Some(p0) => {
                        let at = p0 + settings_marker().len() as int;
                        let a = y.subrange(0, at);
                        let b = y.subrange(at, y.len() as int);
                        assert(y =~= a + Seq::<char>::empty() + b);
                        lemma_swap_counts(a, Seq::<char>::empty(), new, b, p);
                    },
                    None => {},
                }
            }
        },
    }
}

/// `<Settings>` is the opening tag of the name `Settings`.
proof fn lemma_settings_marker()
    ensures
        settings_marker() == open_tag("Settings"@),
        is_word("Settings"@),
        tag_shaped(settings_marker()),
        heads(settings_marker(), "Settings"@),
{
    reveal_strlit("<Settings>");
    reveal_strlit("Settings");
    reveal_strlit("<");
    reveal_strlit(">");
    assert(settings_marker() =~= open_tag("Settings"@));
    lemma_open_shaped("Settings"@);
}

/// A patch keeps every occurrence of a piece that clashes with the setting it replaces and
/// with `<Settings>`.
proof fn lemma_patch_keeps(y: Seq<char>, t: Seq<char>, f: Seq<char>, to: Seq<char>, p: Seq<char>)
    requires
        is_word(t),
        is_word(f),
        tag_shaped(p),
        clash(p, element(t, f)),
        clash(p, settings_marker()),
        contains(y, p),
    ensures
        contains(patch_setting(y, t, f, to), p),
{
    let old = element(t, f);
    let new = element(t, to);
    lemma_element_shaped(t, f);
    lemma_settings_marker();
    lemma_find_from(y, old, 0);
    lemma_find_from(y, settings_marker(), 0);
    match find_from(y, old, 0) {
        Some(i) => {
            let a = y.subrange(0, i);
            let m = y.subrange(i, i + old.len());
            let b = y.subrange(i + old.len(), y.len() as int);
            assert(y =~= a + m + b);
            lemma_swap_keeps(a, m, new, b, p);
        },
        None => {
            if !contains(y, open_tag(t)) {
                match find_from(y, settings_marker(), 0) {
                    Some(p0) => {
                        lemma_insert_keeps(y, p0, new, p);
                    },
                    None => {},
                }
            }
        },
    }
}

/// Patching a text that holds `<t>f</t>` at most once leaves none.
proof fn lemma_patch_clears(y: Seq<char>, t: Seq<char>, f: Seq<char>, to: Seq<char>)
    requires
        is_word(t),
        is_word(f),
        is_word(to),
        f != to,
        occurs_at_most_once(y, element(t, f)),
    ensures
        !contains(patch_setting(y, t, f, to), element(t, f)),
{
    let old = element(t, f);
    let new = element(t, to);
    lemma_element_shaped(t, f);
    lemma_element_shaped(t, to);
    lemma_clash_values(t, f, to);
    lemma_find_from(y, old, 0);
    lemma_find_from(y, settings_marker(), 0);
    match find_from(y, old, 0) {
        Some(i) => {
            let a = y.subrange(0, i);
            let m = y.subrange(i, i + old.len());
            let b = y.subrange(i + old.len(), y.len() as int);
            assert(y =~= a + m + b);
            let r = a + new + b;
            if contains(r, old) {
                lemma_find_from(r, old, 0);
                let j = find_from(r, old, 0)->0;
                lemma_in_parts(a, new, b, old, j);
                lemma_occ_concat(a, m, b, old, j);
                lemma_occ_concat(a, m, b, old, j - a.len() - new.len());
            }
        },
        None => {
            if !contains(y, open_tag(t)) {
                match find_from(y, settings_marker(), 0) {
                    Some(p0) => {
                        let at = p0 + settings_marker().len() as int;
                        let a = y.subrange(0, at);
                        let b = y.subrange(at, y.len() as int);
                        assert(y =~= a + Seq::<char>::empty() + b);
                        lemma_swap_counts(a, Seq::<char>::empty(), new, b, old);
                    },
                    None => {},
                }
            }
        },
    }
}

/// Patching settles a text that holds `<tag>from</tag>` at most once: patching the result
/// again changes nothing (setting names and values being ASCII letters and digits).
pub proof fn law_patch_once_settles(xml: Seq<char>, tag: Seq<char>, from: Seq<char>, to: Seq<char>)
    requires
        is_word(tag),
        is_word(from),
        is_word(to),
        occurs_at_most_once(xml, element(tag, from)),
    ensures
        patch_setting(patch_setting(xml, tag, from, to), tag, from, to) == patch_setting(
            xml,
            tag,
            from,
            to,
        ),
{
    let y = patch_setting(xml, tag, from, to);
    if from == to {
        let old = element(tag, from);
        lemma_patch_shape(xml, tag, from, to);
        lemma_find_from(y, old, 0);
        match find_from(y, old, 0) {
            Some(i) => {
                assert(y.subrange(i, i + old.len()) == old);
                assert(splice(y, i, old.len() as int, element(tag, to)) =~= y);
            },
            None => {},
        }
    } else {
        lemma_patch_clears(xml, tag, from, to);
        law_patch_twice(xml, tag, from, to);
    }
}

/// Relaxing settles a task XML that holds each strict default at most once: relaxing the
/// result again changes nothing, so a second registration never rewrites the task.
pub proof fn law_relax_once_settles(xml: Seq<char>)
    requires
        occurs_at_most_once(xml, element("StartWhenAvailable"@, "false"@)),
        occurs_at_most_once(xml, element("DisallowStartIfOnBatteries"@, "true"@)),
        occurs_at_most_once(xml, element("StopIfGoingOnBatteries"@, "true"@)),
    ensures
        relax_settings(relax_settings(xml)) == relax_settings(xml),
{
    let t1 = "StartWhenAvailable"@;
    let t2 = "DisallowStartIfOnBatteries"@;
    let t3 = "StopIfGoingOnBatteries"@;
    let yes = "true"@;
    let no = "false"@;
    reveal_strlit("StartWhenAvailable");
    reveal_strlit("DisallowStartIfOnBatteries");
    reveal_strlit("StopIfGoingOnBatteries");
    reveal_strlit("true");
    reveal_strlit("false");
    assert(is_word(t1) && is_word(t2) && is_word(t3) && is_word(yes) && is_word(no));
    lemma_settings_marker();
    let sm = settings_marker();
    let sn = "Settings"@;
    reveal_strlit("Settings");
    assert(t1 != t2 && t1 != t3 && t2 != t3 && yes != no);
    assert(sn != t1 && sn != t2 && sn != t3);
    let old1 = element(t1, no);
    let old2 = element(t2, yes);
    let old3 = element(t3, yes);
    let new1 = element(t1, yes);
    let new2 = element(t2, no);
    let new3 = element(t3, no);
    let open1 = open_tag(t1);
    let open2 = open_tag(t2);
    lemma_element_shaped(t1, no);
    lemma_element_shaped(t2, yes);
    lemma_element_shaped(t3, yes);
    lemma_element_shaped(t1, yes);
    lemma_element_shaped(t2, no);
    lemma_element_shaped(t3, no);
    lemma_open_shaped(t1);
    lemma_open_shaped(t2);
    // The first patch: StartWhenAvailable.
    let y1 = patch_setting(xml, t1, no, yes);
    lemma_clash_heads(old2, new1, t2, t1);
    lemma_clash_heads(old3, new1, t3, t1);
    lemma_patch_counts(xml, t1, no, yes, old2);
    lemma_patch_counts(xml, t1, no, yes, old3);
    lemma_patch_clears(xml, t1, no, yes);
    lemma_patch_shape(xml, t1, no, yes);
    // The second patch: DisallowStartIfOnBatteries.
    let y2 = patch_setting(y1, t2, yes, no);
    lemma_clash_heads(old1, new2, t1, t2);
    lemma_clash_heads(sm, new2, sn, t2);
    lemma_clash_heads(old3, new2, t3, t2);
    lemma_clash_heads(open1, old2, t1, t2);
    lemma_clash_heads(open1, sm, t1, sn);
    lemma_patch_counts(y1, t2, yes, no, old1);
    lemma_patch_counts(y1, t2, yes, no, sm);
    lemma_patch_counts(y1, t2, yes, no, old3);
    if contains(y1, open1) {
        lemma_patch_keeps(y1, t2, yes, no, open1);
    }
    lemma_patch_clears(y1, t2, yes, no);
    lemma_patch_shape(y1, t2, yes, no);
    // The third patch: StopIfGoingOnBatteries.
    let y3 = patch_setting(y2, t3, yes, no);
    lemma_clash_heads(old1, new3, t1, t3);
    lemma_clash_heads(old2, new3, t2, t3);
    lemma_clash_heads(sm, new3, sn, t3);
    lemma_clash_heads(open1, old3, t1, t3);
    lemma_clash_heads(open2, old3, t2, t3);
    lemma_clash_heads(open2, sm, t2, sn);
    lemma_patch_counts(y2, t3, yes, no, old1);
    lemma_patch_counts(y2, t3, yes, no, old2);
    lemma_patch_counts(y2, t3, yes, no, sm);
    if contains(y2, open1) {
        lemma_patch_keeps(y2, t3, yes, no, open1);
    }
    if contains(y2, open2) {
        lemma_patch_keeps(y2, t3, yes, no, open2);
    }
    lemma_patch_clears(y2, t3, yes, no);
    lemma_patch_shape(y2, t3, yes, no);
    assert(relax_settings(xml) == y3);
    assert(setting_settled(y3, t1, no));
    assert(setting_settled(y3, t2, yes));
    assert(setting_settled(y3, t3, yes));
    law_relax_settled_unchanged(y3);
}

} // verus!
