//! The scheduled-task XML round trip: relaxing the three battery / missed-start
//! settings that `schtasks /Create` leaves at their strict defaults, and the
//! UTF-16LE (with BOM) encoding that `schtasks /Query /XML` and `/Create /XML` use.

use vstd::prelude::*;
use crate::text::{chars_of, contains, find_from, find_in, lemma_find_from, lemma_find_from_hit, occurs_at, owned, push_range, string_from};

verus! {

/// `<tag>val</tag>`.
pub open spec fn element(tag: Seq<char>, val: Seq<char>) -> Seq<char> {
    "<"@ + tag + ">"@ + val + "</"@ + tag + ">"@
}

/// `<tag>`.
pub open spec fn open_tag(tag: Seq<char>) -> Seq<char> {
    "<"@ + tag + ">"@
}

/// The marker after which a missing setting is inserted.
pub open spec fn settings_marker() -> Seq<char> {
    "<Settings>"@
}

/// `s` with the `cut` characters at position `at` replaced by `ins`.
pub open spec fn splice(s: Seq<char>, at: int, cut: int, ins: Seq<char>) -> Seq<char> {
    s.subrange(0, at) + ins + s.subrange(at + cut, s.len() as int)
}

/// What setting `tag` to `to` does to a task XML:
/// - the first `<tag>from</tag>` becomes `<tag>to</tag>`;
/// - otherwise, when `<tag>` occurs at all, the text is kept as it is;
/// - otherwise `<tag>to</tag>` is inserted right after the first `<Settings>`;
/// - and without `<Settings>` the text is kept as it is.
pub open spec fn patch_setting(xml: Seq<char>, tag: Seq<char>, from: Seq<char>, to: Seq<char>) -> Seq<char> {
    let old = element(tag, from);
    let new = element(tag, to);
    match find_from(xml, old, 0) {
        Some(i) => splice(xml, i, old.len() as int, new),
        None => if contains(xml, open_tag(tag)) {
            xml
        } else {
            match find_from(xml, settings_marker(), 0) {
                Some(p) => splice(xml, p + settings_marker().len(), 0, new),
                None => xml,
            }
        },
    }
}

/// Builds `<tag>val</tag>`.
fn element_text(tag: &str, val: &str) -> (r: String)
    ensures
        r@ == element(tag@, val@),
{
    let mut r = owned("<");
    r.append(tag);
    r.append(">");
    r.append(val);
    r.append("</");
    r.append(tag);
    r.append(">");
    r
}

/// Replaces `<tag>from</tag>` by `<tag>to</tag>` (first occurrence only); when the tag is
/// missing altogether, inserts `<tag>to</tag>` right after `<Settings>`; otherwise, and when
/// there is no `<Settings>`, returns the text unchanged.
pub fn patch_task_setting(xml: &str, tag: &str, from: &str, to: &str) -> (r: String)
    ensures
        r@ == patch_setting(xml@, tag@, from@, to@),
{
    let x = chars_of(xml);
    let old_text = element_text(tag, from);
    let new_text = element_text(tag, to);
    let old = chars_of(old_text.as_str());
    let new = chars_of(new_text.as_str());
    match find_in(&x, &old, 0) {
        Some(i) => {
            proof {
                lemma_find_from(x@, old@, 0);
                assert(i + old@.len() <= x@.len());
            }
            assert(i + old.len() <= x.len());
            let mut out: Vec<char> = Vec::new();
            push_range(&mut out, &x, 0, i);
            push_range(&mut out, &new, 0, new.len());
            push_range(&mut out, &x, i + old.len(), x.len());
            assert(new@.subrange(0, new@.len() as int) == new@);
            return string_from(&out);
        },
        None => {},
    }
    let mut open_text = owned("<");
    open_text.append(tag);
    open_text.append(">");
    let open = chars_of(open_text.as_str());
    if find_in(&x, &open, 0).is_some() {
        return owned(xml);
    }
    let marker = chars_of("<Settings>");
    match find_in(&x, &marker, 0) {
        Some(p) => {
            proof {
                lemma_find_from(x@, marker@, 0);
                assert(p + marker@.len() <= x@.len());
            }
            assert(p + marker.len() <= x.len());
            let at = p + marker.len();
            let mut out: Vec<char> = Vec::new();
            push_range(&mut out, &x, 0, at);
            push_range(&mut out, &new, 0, new.len());
            push_range(&mut out, &x, at, x.len());
            assert(new@.subrange(0, new@.len() as int) == new@);
            string_from(&out)
        },
        None => owned(xml),
    }
}

/// `</tag>`.
pub open spec fn close_tag(tag: Seq<char>) -> Seq<char> {
    "</"@ + tag + ">"@
}

proof fn lemma_element_parts(tag: Seq<char>, val: Seq<char>)
    ensures
        element(tag, val) == open_tag(tag) + val + close_tag(tag),
        element(tag, val).len() == open_tag(tag).len() + val.len() + close_tag(tag).len(),
        element(tag, val).subrange(0, open_tag(tag).len() as int) == open_tag(tag),
        element(tag, val).subrange(
            open_tag(tag).len() as int,
            (open_tag(tag).len() + val.len()) as int,
        ) == val,
{
    assert(element(tag, val) =~= open_tag(tag) + val + close_tag(tag));
    let e = element(tag, val);
    assert(e.subrange(0, open_tag(tag).len() as int) =~= open_tag(tag));
    assert(e.subrange(open_tag(tag).len() as int, (open_tag(tag).len() + val.len()) as int) =~= val);
}

proof fn lemma_element_injective(tag: Seq<char>, a: Seq<char>, b: Seq<char>)
    requires
        element(tag, a) == element(tag, b),
    ensures
        a == b,
{
    lemma_element_parts(tag, a);
    lemma_element_parts(tag, b);
}

proof fn lemma_splice_holds(s: Seq<char>, at: int, cut: int, ins: Seq<char>)
    requires
        0 <= at,
        0 <= cut,
        at + cut <= s.len(),
    ensures
        splice(s, at, cut, ins).len() == s.len() - cut + ins.len(),
        splice(s, at, cut, ins).subrange(at, at + ins.len()) == ins,
{
    assert(splice(s, at, cut, ins).subrange(at, at + ins.len()) =~= ins);
}

/// The opening tag occurs where `<tag>to</tag>` was spliced in.
proof fn lemma_open_tag_after_splice(s: Seq<char>, at: int, cut: int, tag: Seq<char>, to: Seq<char>)
    requires
        0 <= at,
        0 <= cut,
        at + cut <= s.len(),
    ensures
        contains(splice(s, at, cut, element(tag, to)), open_tag(tag)),
{
    let r = splice(s, at, cut, element(tag, to));
    lemma_splice_holds(s, at, cut, element(tag, to));
    lemma_element_parts(tag, to);
    let o = open_tag(tag);
    assert(r.subrange(at, at + o.len()) =~= r.subrange(at, at + element(tag, to).len()).subrange(
        0,
        o.len() as int,
    ));
    assert(occurs_at(r, o, at));
    lemma_find_from_hit(r, o, 0, at);
}

/// After a patch, the tag is present, or the text has no `<Settings>` and no `<tag>from</tag>`
/// and was left as it was.
pub(crate) proof fn lemma_patch_shape(xml: Seq<char>, tag: Seq<char>, from: Seq<char>, to: Seq<char>)
    ensures
        contains(patch_setting(xml, tag, from, to), open_tag(tag)) || (patch_setting(
            xml,
            tag,
            from,
            to,
        ) == xml && !contains(xml, element(tag, from)) && !contains(xml, open_tag(tag))
            && !contains(xml, settings_marker())),
{
    lemma_find_from(xml, element(tag, from), 0);
    lemma_find_from(xml, settings_marker(), 0);
    match find_from(xml, element(tag, from), 0) {
        Some(i) => {
            lemma_open_tag_after_splice(xml, i, element(tag, from).len() as int, tag, to);
        },
        None => {
            if !contains(xml, open_tag(tag)) {
                match find_from(xml, settings_marker(), 0) {
                    Some(p) => {
                        lemma_open_tag_after_splice(xml, p + settings_marker().len(), 0, tag, to);
                    },
                    None => {},
                }
            }
        },
    }
}

/// A text is left unchanged by the patch exactly when it holds no `<tag>from</tag>` and
/// either already holds `<tag>` or has no `<Settings>` to insert into (for distinct `from`
/// and `to`).
pub proof fn law_patch_fixpoint(xml: Seq<char>, tag: Seq<char>, from: Seq<char>, to: Seq<char>)
    requires
        from != to,
    ensures
        patch_setting(xml, tag, from, to) == xml <==> (!contains(xml, element(tag, from)) && (
        contains(xml, open_tag(tag)) || !contains(xml, settings_marker()))),
{
    let old = element(tag, from);
    let new = element(tag, to);
    lemma_find_from(xml, old, 0);
    lemma_find_from(xml, settings_marker(), 0);
    match find_from(xml, old, 0) {
        Some(i) => {
            let r = splice(xml, i, old.len() as int, new);
            lemma_splice_holds(xml, i, old.len() as int, new);
            if r == xml {
                lemma_element_parts(tag, from);
                lemma_element_parts(tag, to);
                assert(r.subrange(i, i + new.len()) == xml.subrange(i, i + old.len()));
                lemma_element_injective(tag, from, to);
            }
        },
        None => {
            if !contains(xml, open_tag(tag)) {
                match find_from(xml, settings_marker(), 0) {
                    Some(p) => {
                        let at = p + settings_marker().len();
                        lemma_splice_holds(xml, at, 0, new);
                        lemma_element_parts(tag, to);
                        reveal_strlit("<");
                        assert(new.len() > 0);
                    },
                    None => {},
                }
            }
        },
    }
}

/// Patching twice gives what patching once gave, exactly when the once-patched text holds
/// no further `<tag>from</tag>` (for distinct `from` and `to`).
pub proof fn law_patch_twice(xml: Seq<char>, tag: Seq<char>, from: Seq<char>, to: Seq<char>)
    requires
        from != to,
    ensures
        patch_setting(patch_setting(xml, tag, from, to), tag, from, to) == patch_setting(
            xml,
            tag,
            from,
            to,
        ) <==> !contains(patch_setting(xml, tag, from, to), element(tag, from)),
{
    let y = patch_setting(xml, tag, from, to);
    lemma_patch_shape(xml, tag, from, to);
    law_patch_fixpoint(y, tag, from, to);
}

/// Without `<tag>from</tag>` and without `<Settings>`, the text is returned unchanged.
pub proof fn law_patch_without_settings(xml: Seq<char>, tag: Seq<char>, from: Seq<char>, to: Seq<char>)
    requires
        !contains(xml, element(tag, from)),
        !contains(xml, settings_marker()),
    ensures
        patch_setting(xml, tag, from, to) == xml,
{
}

/// A setting that the patch leaves alone: no `<tag>from</tag>` in the text, and the tag is
/// there already or there is no `<Settings>` to insert it into.
pub open spec fn setting_settled(xml: Seq<char>, tag: Seq<char>, from: Seq<char>) -> bool {
    !contains(xml, element(tag, from)) && (contains(xml, open_tag(tag)) || !contains(
        xml,
        settings_marker(),
    ))
}

/// Relaxing an already relaxed task XML changes nothing: when each of the three settings
/// is settled (none holds its strict default, and each is present unless there is no
/// `<Settings>`), the relaxation returns the text as it was; so registering again never
/// rewrites a task whose settings are already relaxed.
pub proof fn law_relax_settled_unchanged(xml: Seq<char>)
    requires
        setting_settled(xml, "StartWhenAvailable"@, "false"@),
        setting_settled(xml, "DisallowStartIfOnBatteries"@, "true"@),
        setting_settled(xml, "StopIfGoingOnBatteries"@, "true"@),
    ensures
        relax_settings(xml) == xml,
{
    reveal_strlit("false");
    reveal_strlit("true");
    law_patch_fixpoint(xml, "StartWhenAvailable"@, "false"@, "true"@);
    law_patch_fixpoint(xml, "DisallowStartIfOnBatteries"@, "true"@, "false"@);
    law_patch_fixpoint(xml, "StopIfGoingOnBatteries"@, "true"@, "false"@);
}

/// The three relaxations applied in turn: `StartWhenAvailable` false → true,
/// `DisallowStartIfOnBatteries` true → false, `StopIfGoingOnBatteries` true → false.
pub open spec fn relax_settings(xml: Seq<char>) -> Seq<char> {
    let a = patch_setting(xml, "StartWhenAvailable"@, "false"@, "true"@);
    let b = patch_setting(a, "DisallowStartIfOnBatteries"@, "true"@, "false"@);
    patch_setting(b, "StopIfGoingOnBatteries"@, "true"@, "false"@)
}

/// Relaxes a whole task XML: missed runs start when the machine is available again, and
/// running on battery neither blocks nor stops the task.
pub fn relax_task_settings_xml(xml: &str) -> (r: String)
    ensures
        r@ == relax_settings(xml@),
{
    let a = patch_task_setting(xml, "StartWhenAvailable", "false", "true");
    let b = patch_task_setting(a.as_str(), "DisallowStartIfOnBatteries", "true", "false");
    patch_task_setting(b.as_str(), "StopIfGoingOnBatteries", "true", "false")
}

/// A leading UTF-16 surrogate.
pub open spec fn is_high_surrogate(u: u16) -> bool {
    0xD800 <= u <= 0xDBFF
}

/// A trailing UTF-16 surrogate.
pub open spec fn is_low_surrogate(u: u16) -> bool {
    0xDC00 <= u <= 0xDFFF
}

/// The UTF-16 code units of one character.
pub open spec fn utf16_of_char(c: char) -> Seq<u16> {
    let v = c as u32;
    if v < 0x10000 {
        seq![v as u16]
    } else {
        let w = v - 0x10000;
        seq![(0xD800 + w / 0x400) as u16, (0xDC00 + w % 0x400) as u16]
    }
}

/// `str::encode_utf16`.
pub open spec fn encode_utf16(s: Seq<char>) -> Seq<u16>
    decreases s.len(),
{
    if s.len() == 0 {
        Seq::empty()
    } else {
        utf16_of_char(s[0]) + encode_utf16(s.drop_first())
    }
}

/// The character that a surrogate pair stands for.
pub open spec fn pair_scalar(hi: u16, lo: u16) -> u32 {
    (0x10000 + (hi - 0xD800) * 0x400 + (lo - 0xDC00)) as u32
}

/// `String::from_utf16_lossy`: each unpaired surrogate becomes U+FFFD.
pub open spec fn decode_utf16_lossy(u: Seq<u16>) -> Seq<char>
    decreases u.len(),
{
    if u.len() == 0 {
        Seq::empty()
    } else if !(0xD800 <= u[0] <= 0xDFFF) {
        seq![u[0] as char] + decode_utf16_lossy(u.drop_first())
    } else if is_high_surrogate(u[0]) && u.len() >= 2 && is_low_surrogate(u[1]) {
        seq![pair_scalar(u[0], u[1]) as char] + decode_utf16_lossy(u.subrange(2, u.len() as int))
    } else {
        seq!['\u{FFFD}'] + decode_utf16_lossy(u.drop_first())
    }
}

/// Little-endian code units read two bytes at a time; an odd last byte is ignored.
pub open spec fn le_units(b: Seq<u8>) -> Seq<u16> {
    Seq::new(b.len() / 2, |k: int| (b[2 * k] + 256 * b[2 * k + 1]) as u16)
}

/// Code units written as little-endian byte pairs.
pub open spec fn le_bytes(u: Seq<u16>) -> Seq<u8> {
    Seq::new(2 * u.len(), |i: int| if i % 2 == 0 { (u[i / 2] % 256) as u8 } else { (u[i / 2] / 256) as u8 })
}

/// The byte-order mark of UTF-16LE.
pub open spec fn utf16le_bom() -> Seq<u8> {
    seq![0xFFu8, 0xFEu8]
}

/// The bytes that `encode_task_xml` writes for a task XML text.
pub open spec fn task_xml_bytes(xml: Seq<char>) -> Seq<u8> {
    utf16le_bom() + le_bytes(encode_utf16(xml))
}

/// A UTF-8 continuation byte.
pub open spec fn is_cont(b: u8) -> bool {
    0x80 <= b <= 0xBF
}

/// The length of the UTF-8 sequence that `lead` starts (0 when `lead` starts none).
pub open spec fn utf8_width(lead: u8) -> int {
    if lead < 0x80 {
        1
    } else if 0xC2 <= lead <= 0xDF {
        2
    } else if 0xE0 <= lead <= 0xEF {
        3
    } else if 0xF0 <= lead <= 0xF4 {
        4
    } else {
        0
    }
}

/// Whether `b` may follow `lead` in a well-formed UTF-8 sequence (which rules out overlong
/// forms, surrogates and values above U+10FFFF).
pub open spec fn second_ok(lead: u8, b: u8) -> bool {
    if 0xC2 <= lead <= 0xDF {
        is_cont(b)
    } else if lead == 0xE0 {
        0xA0 <= b <= 0xBF
    } else if (0xE1 <= lead <= 0xEC) || (0xEE <= lead <= 0xEF) {
        is_cont(b)
    } else if lead == 0xED {
        0x80 <= b <= 0x9F
    } else if lead == 0xF0 {
        0x90 <= b <= 0xBF
    } else if 0xF1 <= lead <= 0xF3 {
        is_cont(b)
    } else if lead == 0xF4 {
        0x80 <= b <= 0x8F
    } else {
        false
    }
}

/// How many bytes at the start of `b` (non-empty) the lossy decoder takes in one step: a
/// whole well-formed sequence, or else the longest start of one, at least one byte.
pub open spec fn utf8_step_len(b: Seq<u8>) -> int {
    let w = utf8_width(b[0]);
    if w <= 1 {
        1
    } else if b.len() < 2 || !second_ok(b[0], b[1]) {
        1
    } else if w == 2 {
        2
    } else if b.len() < 3 || !is_cont(b[2]) {
        2
    } else if w == 3 {
        3
    } else if b.len() < 4 || !is_cont(b[3]) {
        3
    } else {
        4
    }
}

/// Whether the first step takes a whole well-formed sequence.
pub open spec fn utf8_step_valid(b: Seq<u8>) -> bool {
    let w = utf8_width(b[0]);
    w >= 1 && utf8_step_len(b) == w
}

/// The scalar value of the well-formed sequence at the start of `b`.
pub open spec fn utf8_step_scalar(b: Seq<u8>) -> u32 {
    let w = utf8_width(b[0]);
    if w == 1 {
        b[0] as u32
    } else if w == 2 {
        ((b[0] - 0xC0) * 0x40 + (b[1] - 0x80)) as u32
    } else if w == 3 {
        ((b[0] - 0xE0) * 0x1000 + (b[1] - 0x80) * 0x40 + (b[2] - 0x80)) as u32
    } else {
        ((b[0] - 0xF0) * 0x40000 + (b[1] - 0x80) * 0x1000 + (b[2] - 0x80) * 0x40 + (b[3] - 0x80)) as u32
    }
}

/// `String::from_utf8_lossy`: the text of the well-formed sequences, each ill-formed part
/// (the longest start of a sequence, or a single byte) becoming U+FFFD.
pub open spec fn utf8_lossy(b: Seq<u8>) -> Seq<char>
    decreases b.len(),
{
    if b.len() == 0 {
        Seq::empty()
    } else {
        let n = utf8_step_len(b);
        let c = if utf8_step_valid(b) {
            utf8_step_scalar(b) as char
        } else {
            '\u{FFFD}'
        };
        seq![c] + utf8_lossy(b.subrange(n, b.len() as int))
    }
}

/// The text that `decode_task_xml` reads from exported bytes: UTF-16LE after a BOM,
/// lossy UTF-8 otherwise.
pub open spec fn task_xml_text(bytes: Seq<u8>) -> Seq<char> {
    if bytes.len() >= 2 && bytes[0] == 0xFF && bytes[1] == 0xFE {
        decode_utf16_lossy(le_units(bytes.subrange(2, bytes.len() as int)))
    } else {
        utf8_lossy(bytes)
    }
}

/// Decodes bytes as UTF-8, each ill-formed part becoming U+FFFD.
fn utf8_lossy_string(bytes: &[u8]) -> (r: String)
    ensures
        r@ == utf8_lossy(bytes@),
{
    let mut out: Vec<char> = Vec::new();
    let mut i: usize = 0;
    assert(bytes@.subrange(0, bytes@.len() as int) =~= bytes@);
    assert(out@ + utf8_lossy(bytes@) =~= utf8_lossy(bytes@));
    while i < bytes.len()
        invariant
            i <= bytes.len(),
            out@ + utf8_lossy(bytes@.subrange(i as int, bytes@.len() as int)) == utf8_lossy(bytes@),
        decreases bytes.len() - i,
    {
        let ghost rest = bytes@.subrange(i as int, bytes@.len() as int);
        let ghost before = out@;
        let left = bytes.len() - i;
        let b0 = bytes[i];
        let w: usize = if b0 < 0x80 {
            1
        } else if 0xC2 <= b0 && b0 <= 0xDF {
            2
        } else if 0xE0 <= b0 && b0 <= 0xEF {
            3
        } else if 0xF0 <= b0 && b0 <= 0xF4 {
            4
        } else {
            0
        };
        assert(rest[0] == b0);
        assert(w as int == utf8_width(b0));
        let mut n: usize = 1;
        let mut valid = w == 1;
        if w >= 2 && left >= 2 {
            let b1 = bytes[i + 1];
            assert(rest[1] == b1);
            let ok1 = if 0xC2 <= b0 && b0 <= 0xDF {
                0x80 <= b1 && b1 <= 0xBF
            } else if b0 == 0xE0 {
                0xA0 <= b1 && b1 <= 0xBF
            } else if (0xE1 <= b0 && b0 <= 0xEC) || (0xEE <= b0 && b0 <= 0xEF) {
                0x80 <= b1 && b1 <= 0xBF
            } else if b0 == 0xED {
                0x80 <= b1 && b1 <= 0x9F
            } else if b0 == 0xF0 {
                0x90 <= b1 && b1 <= 0xBF
            } else if 0xF1 <= b0 && b0 <= 0xF3 {
                0x80 <= b1 && b1 <= 0xBF
            } else if b0 == 0xF4 {
                0x80 <= b1 && b1 <= 0x8F
            } else {
                false
            };
            assert(ok1 == second_ok(b0, b1));
            if ok1 {
                n = 2;
                if w == 2 {
                    valid = true;
                } else if left >= 3 && 0x80 <= bytes[i + 2] && bytes[i + 2] <= 0xBF {
                    assert(rest[2] == bytes[i + 2]);
                    n = 3;
                    if w == 3 {
                        valid = true;
                    } else if left >= 4 && 0x80 <= bytes[i + 3] && bytes[i + 3] <= 0xBF {
                        assert(rest[3] == bytes[i + 3]);
                        n = 4;
                        valid = true;
                    }
                } else if left >= 3 {
                    assert(rest[2] == bytes[i + 2]);
                }
            }
        }
        assert(n as int == utf8_step_len(rest));
        assert(valid == utf8_step_valid(rest));
        let c = if valid {
            let v: u32 = if w == 1 {
                b0 as u32
            } else if w == 2 {
                ((b0 - 0xC0) as u32) * 0x40 + ((bytes[i + 1] - 0x80) as u32)
            } else if w == 3 {
                ((b0 - 0xE0) as u32) * 0x1000 + ((bytes[i + 1] - 0x80) as u32) * 0x40 + ((bytes[i
                    + 2] - 0x80) as u32)
            } else {
                ((b0 - 0xF0) as u32) * 0x40000 + ((bytes[i + 1] - 0x80) as u32) * 0x1000 + ((bytes[i
                    + 2] - 0x80) as u32) * 0x40 + ((bytes[i + 3] - 0x80) as u32)
            };
            assert(v == utf8_step_scalar(rest));
            scalar_char(v)
        } else {
            '\u{FFFD}'
        };
        out.push(c);
        assert(rest.subrange(n as int, rest.len() as int) =~= bytes@.subrange(
            i + n,
            bytes@.len() as int,
        ));
        assert(out@ + utf8_lossy(rest.subrange(n as int, rest.len() as int)) =~= before + utf8_lossy(
            rest,
        ));
        i += n;
    }
    assert(out@ + utf8_lossy(Seq::<u8>::empty()) =~= out@);
    assert(bytes@.subrange(bytes@.len() as int, bytes@.len() as int) =~= Seq::<u8>::empty());
    string_from(&out)
}

/// `char::from_u32` on a value known to be a Unicode scalar.
#[verifier::external_body]
fn scalar_char(v: u32) -> (c: char)
    requires
        v < 0xD800 || (0xE000 <= v <= 0x10FFFF),
    ensures
        c == v as char,
{
    char::from_u32(v).unwrap()
}

proof fn lemma_encode_utf16_append(a: Seq<char>, b: Seq<char>)
    ensures
        encode_utf16(a + b) == encode_utf16(a) + encode_utf16(b),
    decreases a.len(),
{
    if a.len() == 0 {
        assert(a + b =~= b);
        assert(encode_utf16(a) + encode_utf16(b) =~= encode_utf16(b));
    } else {
        assert((a + b).drop_first() =~= a.drop_first() + b);
        lemma_encode_utf16_append(a.drop_first(), b);
        assert(encode_utf16(a + b) =~= encode_utf16(a) + encode_utf16(b));
    }
}

proof fn lemma_le_bytes_append(a: Seq<u16>, b: Seq<u16>)
    ensures
        le_bytes(a + b) == le_bytes(a) + le_bytes(b),
{
    let l = le_bytes(a + b);
    let r = le_bytes(a) + le_bytes(b);
    assert forall|i: int| 0 <= i < l.len() implies l[i] == r[i] by {
        if i < 2 * a.len() {
        } else {
            let j = i - 2 * a.len();
            assert(j % 2 == i % 2);
            assert(j / 2 == i / 2 - a.len());
        }
    }
    assert(l =~= r);
}

proof fn lemma_le_roundtrip(u: Seq<u16>)
    ensures
        le_units(le_bytes(u)) == u,
{
    let b = le_bytes(u);
    assert forall|k: int| 0 <= k < u.len() implies le_units(b)[k] == u[k] by {
        assert((2 * k) % 2 == 0 && (2 * k) / 2 == k);
        assert((2 * k + 1) % 2 == 1 && (2 * k + 1) / 2 == k);
        let x = u[k];
        assert(x % 256 + 256 * (x / 256) == x);
    }
    assert(le_units(b) =~= u);
}

proof fn lemma_split_scalar(w: int)
    requires
        0 <= w < 0x100000,
    ensures
        0 <= w / 0x400 < 0x400,
        0 <= w % 0x400 < 0x400,
        (w / 0x400) * 0x400 + w % 0x400 == w,
{
    assert(0 <= w / 0x400 < 0x400) by (nonlinear_arith)
        requires
            0 <= w < 0x100000,
    ;
    assert((w / 0x400) * 0x400 + w % 0x400 == w) by (nonlinear_arith);
}

/// Decoding the UTF-16 encoding of a text gives the text back.
pub proof fn law_utf16_roundtrip(s: Seq<char>)
    ensures
        decode_utf16_lossy(encode_utf16(s)) == s,
    decreases s.len(),
{
    if s.len() > 0 {
        let c = s[0];
        let v = c as u32;
        let rest = encode_utf16(s.drop_first());
        let e = encode_utf16(s);
        law_utf16_roundtrip(s.drop_first());
        vstd::utf8::char_is_scalar(c);
        vstd::utf8::char_u32_cast(c, v);
        if v < 0x10000 {
            assert(e.drop_first() =~= rest);
            assert(e[0] == v as u16);
        } else {
            let w = v - 0x10000;
            lemma_split_scalar(w as int);
            assert(e.subrange(2, e.len() as int) =~= rest);
            assert(pair_scalar(e[0], e[1]) == v);
        }
        assert(decode_utf16_lossy(e) =~= s);
    }
}

/// Reading back what `encode_task_xml` wrote gives the same text: the export round trip
/// loses no character.
pub proof fn law_task_xml_roundtrip(xml: Seq<char>)
    ensures
        task_xml_text(task_xml_bytes(xml)) == xml,
{
    let b = task_xml_bytes(xml);
    assert(b.subrange(2, b.len() as int) =~= le_bytes(encode_utf16(xml)));
    lemma_le_roundtrip(encode_utf16(xml));
    law_utf16_roundtrip(xml);
}

proof fn lemma_utf8_width_1(v: u32)
    by (bit_vector)
    requires
        v <= 0x7F,
    ensures
        vstd::utf8::leading_byte_width_1(v) < 0x80,
        vstd::utf8::leading_byte_width_1(v) as u32 == v,
{
}

proof fn lemma_utf8_width_2(v: u32)
    by (bit_vector)
    requires
        0x80 <= v <= 0x7FF,
    ensures
        0xC2 <= vstd::utf8::leading_byte_width_2(v) <= 0xDF,
        0x80 <= vstd::utf8::last_continuation_byte(v) <= 0xBF,
        ((vstd::utf8::leading_byte_width_2(v) as u32) - 0xC0) * 0x40 + ((
        vstd::utf8::last_continuation_byte(v) as u32) - 0x80) == v,
{
}

proof fn lemma_utf8_width_3(v: u32)
    by (bit_vector)
    requires
        0x800 <= v <= 0xFFFF,
        !(0xD800 <= v <= 0xDFFF),
    ensures
        0xE0 <= vstd::utf8::leading_byte_width_3(v) <= 0xEF,
        0x80 <= vstd::utf8::second_last_continuation_byte(v) <= 0xBF,
        0x80 <= vstd::utf8::last_continuation_byte(v) <= 0xBF,
        vstd::utf8::leading_byte_width_3(v) == 0xE0 ==> 0xA0
            <= vstd::utf8::second_last_continuation_byte(v),
        vstd::utf8::leading_byte_width_3(v) == 0xED ==> vstd::utf8::second_last_continuation_byte(v)
            <= 0x9F,
        ((vstd::utf8::leading_byte_width_3(v) as u32) - 0xE0) * 0x1000 + ((
        vstd::utf8::second_last_continuation_byte(v) as u32) - 0x80) * 0x40 + ((
        vstd::utf8::last_continuation_byte(v) as u32) - 0x80) == v,
{
}

proof fn lemma_utf8_width_4(v: u32)
    by (bit_vector)
    requires
        0x10000 <= v <= 0x10FFFF,
    ensures
        0xF0 <= vstd::utf8::leading_byte_width_4(v) <= 0xF4,
        0x80 <= vstd::utf8::third_last_continuation_byte(v) <= 0xBF,
        0x80 <= vstd::utf8::second_last_continuation_byte(v) <= 0xBF,
        0x80 <= vstd::utf8::last_continuation_byte(v) <= 0xBF,
        vstd::utf8::leading_byte_width_4(v) == 0xF0 ==> 0x90
            <= vstd::utf8::third_last_continuation_byte(v),
        vstd::utf8::leading_byte_width_4(v) == 0xF4 ==> vstd::utf8::third_last_continuation_byte(v)
            <= 0x8F,
        ((vstd::utf8::leading_byte_width_4(v) as u32) - 0xF0) * 0x40000 + ((
        vstd::utf8::third_last_continuation_byte(v) as u32) - 0x80) * 0x1000 + ((
        vstd::utf8::second_last_continuation_byte(v) as u32) - 0x80) * 0x40 + ((
        vstd::utf8::last_continuation_byte(v) as u32) - 0x80) == v,
{
}

/// The first lossy step over the UTF-8 encoding of `c` followed by anything takes exactly
/// that encoding and gives `c`.
proof fn lemma_utf8_step_of_char(c: char, t: Seq<u8>)
    ensures
        ({
            let e = vstd::utf8::encode_scalar(c as u32);
            let b = e + t;
            &&& e.len() >= 1
            &&& utf8_step_len(b) == e.len()
            &&& utf8_step_valid(b)
            &&& utf8_step_scalar(b) as char == c
            &&& b[0] <= 0xF4
        }),
{
    let v = c as u32;
    vstd::utf8::char_is_scalar(c);
    vstd::utf8::char_u32_cast(c, v);
    let e = vstd::utf8::encode_scalar(v);
    let b = e + t;
    if v <= 0x7F {
        lemma_utf8_width_1(v);
    } else if v <= 0x7FF {
        lemma_utf8_width_2(v);
        assert(b[0] == e[0] && b[1] == e[1]);
    } else if v <= 0xFFFF {
        lemma_utf8_width_3(v);
        assert(b[0] == e[0] && b[1] == e[1] && b[2] == e[2]);
    } else {
        lemma_utf8_width_4(v);
        assert(b[0] == e[0] && b[1] == e[1] && b[2] == e[2] && b[3] == e[3]);
    }
}

/// Text written as UTF-8 reads back unchanged through the lossy decoder.
pub proof fn law_utf8_roundtrip(s: Seq<char>)
    ensures
        utf8_lossy(vstd::utf8::encode_utf8(s)) == s,
    decreases s.len(),
{
    if s.len() > 0 {
        let e = vstd::utf8::encode_scalar(s[0] as u32);
        let rest = vstd::utf8::encode_utf8(s.drop_first());
        let b = vstd::utf8::encode_utf8(s);
        assert(b == e + rest);
        lemma_utf8_step_of_char(s[0], rest);
        law_utf8_roundtrip(s.drop_first());
        assert(b.subrange(e.len() as int, b.len() as int) =~= rest);
        assert(utf8_lossy(b) =~= s);
    }
}

/// An export written as UTF-8 (without the UTF-16 byte-order mark, which UTF-8 never starts
/// with) is read back as the same text.
pub proof fn law_task_xml_reads_utf8(xml: Seq<char>)
    ensures
        task_xml_text(vstd::utf8::encode_utf8(xml)) == xml,
{
    law_utf8_roundtrip(xml);
    if xml.len() > 0 {
        let e = vstd::utf8::encode_scalar(xml[0] as u32);
        let rest = vstd::utf8::encode_utf8(xml.drop_first());
        lemma_utf8_step_of_char(xml[0], rest);
        assert(vstd::utf8::encode_utf8(xml)[0] == (e + rest)[0]);
    }
}

/// Encodes a task XML as UTF-16LE with a BOM, the form `schtasks /Create /XML` reads back
/// without losing non-ASCII names or descriptions.
pub fn encode_task_xml(xml: &str) -> (r: Vec<u8>)
    ensures
        r@ == task_xml_bytes(xml@),
{
    let chars = chars_of(xml);
    let mut out: Vec<u8> = Vec::new();
    out.push(0xFFu8);
    out.push(0xFEu8);
    let mut i: usize = 0;
    while i < chars.len()
        invariant
            i <= chars.len(),
            chars@ == xml@,
            out@ == utf16le_bom() + le_bytes(encode_utf16(chars@.take(i as int))),
        decreases chars.len() - i,
    {
        let c = chars[i];
        let v = c as u32;
        let ghost before = out@;
        proof {
            vstd::utf8::char_is_scalar(c);
            assert(chars@.take(i + 1) =~= chars@.take(i as int) + seq![c]);
            lemma_encode_utf16_append(chars@.take(i as int), seq![c]);
            assert(seq![c].drop_first() =~= Seq::<char>::empty());
            assert(encode_utf16(Seq::<char>::empty()) =~= Seq::<u16>::empty());
            assert(seq![c][0] == c);
            assert(encode_utf16(seq![c]) == utf16_of_char(c) + encode_utf16(Seq::<char>::empty()));
            assert(encode_utf16(seq![c]) =~= utf16_of_char(c));
            lemma_le_bytes_append(encode_utf16(chars@.take(i as int)), utf16_of_char(c));
        }
        if v < 0x10000 {
            let u = v as u16;
            out.push((u % 256) as u8);
            out.push((u / 256) as u8);
            assert(le_bytes(utf16_of_char(c)) =~= seq![(u % 256) as u8, (u / 256) as u8]);
        } else {
            let w = v - 0x10000;
            proof {
                lemma_split_scalar(w as int);
            }
            let hi = (0xD800 + w / 0x400) as u16;
            let lo = (0xDC00 + w % 0x400) as u16;
            out.push((hi % 256) as u8);
            out.push((hi / 256) as u8);
            out.push((lo % 256) as u8);
            out.push((lo / 256) as u8);
            assert(le_bytes(utf16_of_char(c)) =~= seq![
                (hi % 256) as u8,
                (hi / 256) as u8,
                (lo % 256) as u8,
                (lo / 256) as u8,
            ]);
        }
        assert(out@ =~= before + le_bytes(utf16_of_char(c)));
        i += 1;
    }
    assert(chars@.take(chars@.len() as int) =~= chars@);
    out
}

/// Reads an exported task XML: UTF-16LE when the bytes start with the BOM (each unpaired
/// surrogate becoming U+FFFD), lossy UTF-8 otherwise.
pub fn decode_task_xml(bytes: &[u8]) -> (r: String)
    ensures
        r@ == task_xml_text(bytes@),
{
    if bytes.len() >= 2 && bytes[0] == 0xFF && bytes[1] == 0xFE {
        let ghost body = bytes@.subrange(2, bytes@.len() as int);
        let n = (bytes.len() - 2) / 2;
        let mut units: Vec<u16> = Vec::new();
        let mut k: usize = 0;
        while k < n
            invariant
                k <= n,
                n == (bytes@.len() - 2) / 2,
                body == bytes@.subrange(2, bytes@.len() as int),
                units@ == le_units(body).take(k as int),
            decreases n - k,
        {
            assert(2 * k + 3 <= bytes.len()) by (nonlinear_arith)
                requires
                    k < n,
                    n == (bytes.len() - 2) / 2,
                    bytes.len() >= 2,
            ;
            let lo = bytes[2 + 2 * k] as u16;
            let hi = bytes[3 + 2 * k] as u16;
            units.push(lo + hi * 256);
            assert(units@ =~= le_units(body).take(k + 1));
            k += 1;
        }
        assert(units@ =~= le_units(body));
        let mut out: Vec<char> = Vec::new();
        let mut i: usize = 0;
        while i < units.len()
            invariant
                i <= units.len(),
                out@ + decode_utf16_lossy(units@.subrange(i as int, units@.len() as int))
                    == decode_utf16_lossy(units@),
            decreases units.len() - i,
        {
            let ghost rest = units@.subrange(i as int, units@.len() as int);
            let ghost before = out@;
            let u = units[i];
            if u < 0xD800 || u > 0xDFFF {
                out.push(scalar_char(u as u32));
                assert(rest.drop_first() =~= units@.subrange(i + 1, units@.len() as int));
                assert(out@ + decode_utf16_lossy(rest.drop_first()) =~= before
                    + decode_utf16_lossy(rest));
                i += 1;
            } else if u <= 0xDBFF && i + 1 < units.len() && units[i + 1] >= 0xDC00 && units[i
                + 1] <= 0xDFFF {
                let u2 = units[i + 1];
                let v = 0x10000u32 + ((u - 0xD800) as u32) * 0x400 + ((u2 - 0xDC00) as u32);
                assert(v == pair_scalar(u, u2));
                out.push(scalar_char(v));
                assert(rest.subrange(2, rest.len() as int) =~= units@.subrange(
                    i + 2,
                    units@.len() as int,
                ));
                assert(out@ + decode_utf16_lossy(rest.subrange(2, rest.len() as int)) =~= before
                    + decode_utf16_lossy(rest));
                i += 2;
            } else {
                out.push('\u{FFFD}');
                assert(rest.drop_first() =~= units@.subrange(i + 1, units@.len() as int));
                assert(out@ + decode_utf16_lossy(rest.drop_first()) =~= before
                    + decode_utf16_lossy(rest));
                i += 1;
            }
        }
        assert(units@.subrange(units@.len() as int, units@.len() as int) =~= Seq::<u16>::empty());
        assert(out@ + decode_utf16_lossy(Seq::<u16>::empty()) =~= out@);
        string_from(&out)
    } else {
        utf8_lossy_string(bytes)
    }
}

} // verus!
