//! Reading the task names out of `schtasks /Query /FO CSV /NH`, and picking out the
//! check-in tasks among them.
//!
//! The column order of the CSV differs between Windows versions and languages, so the
//! task name is recognised by its content: it is the one field that starts with `\`
//! (inside the quotes), `\Name` for the root folder or `\Folder\Name` below it.

use vstd::prelude::*;
use crate::text::{
    CharClass, chars_of, lemma_back_class_bounds, lemma_skip_class, lines, lines_from, lemma_next_char, line_text, next_char, next_char_in,
    push_range, skip_class_from, split, split_from, string_from, string_of, trim, trim_bounds,
    back_class, skip_class, trim_class, trim_class_bounds, trim_start_class,
};

verus! {

/// A (trimmed) CSV field that holds a task name: it starts with `"\`.
pub open spec fn is_task_field(f: Seq<char>) -> bool {
    f.len() >= 2 && f[0] == '"' && f[1] == '\\'
}

/// The first field, once trimmed, that holds a task name.
pub open spec fn first_task_field(fields: Seq<Seq<char>>) -> Option<Seq<char>>
    decreases fields.len(),
{
    if fields.len() == 0 {
        None
    } else if is_task_field(trim(fields[0])) {
        Some(trim(fields[0]))
    } else {
        first_task_field(fields.drop_first())
    }
}

/// The name a task field holds: the quotes stripped from both ends, then the leading `\`s.
pub open spec fn field_task_name(f: Seq<char>) -> Seq<char> {
    trim_start_class(trim_class(f, CharClass::Exactly('"')), CharClass::Exactly('\\'))
}

/// The task name on one CSV line, if a field holds one.
pub open spec fn line_task_name(line: Seq<char>) -> Option<Seq<char>> {
    match first_task_field(split(line, ',')) {
        Some(f) => Some(field_task_name(f)),
        None => None,
    }
}

/// The non-empty task names of the lines, in order.
pub open spec fn task_names_of_lines(ls: Seq<Seq<char>>) -> Seq<Seq<char>>
    decreases ls.len(),
{
    if ls.len() == 0 {
        Seq::empty()
    } else {
        let rest = task_names_of_lines(ls.drop_first());
        match line_task_name(ls[0]) {
            Some(n) => if n.len() > 0 {
                seq![n] + rest
            } else {
                rest
            },
            None => rest,
        }
    }
}

/// The task names that `schtasks /Query /FO CSV /NH` printed.
pub open spec fn task_names_csv(stdout: Seq<char>) -> Seq<Seq<char>> {
    task_names_of_lines(lines(stdout))
}

/// The task name on one line, as characters.
fn line_task_name_in(l: &Vec<char>) -> (r: Option<Vec<char>>)
    ensures
        match r {
            Some(n) => line_task_name(l@) == Some(n@),
            None => line_task_name(l@) is None,
        },
{
    let mut j: usize = 0;
    loop
        invariant
            j <= l.len(),
            first_task_field(split_from(l@, ',', j as int)) == first_task_field(split(l@, ',')),
        decreases l.len() - j,
    {
        let e = next_char_in(l, ',', j);
        let ghost fields = split_from(l@, ',', j as int);
        proof {
            lemma_next_char(l@, ',', j as int);
            assert(fields[0] == l@.subrange(j as int, e as int));
        }
        let (a, b) = trim_bounds(l, j, e);
        if b - a >= 2 && l[a] == '"' && l[a + 1] == '\\' {
            assert(is_task_field(trim(fields[0])));
            let (a2, b2) = trim_class_bounds(l, a, b, CharClass::Exactly('"'));
            let a3 = skip_class_from(l, a2, b2, CharClass::Exactly('\\'));
            let mut name: Vec<char> = Vec::new();
            push_range(&mut name, l, a3, b2);
            assert(name@ == field_task_name(l@.subrange(a as int, b as int)));
            return Some(name);
        }
        assert(!is_task_field(trim(fields[0])));
        if e >= l.len() {
            assert(fields.drop_first() =~= Seq::<Seq<char>>::empty());
            assert(first_task_field(fields.drop_first()) is None);
            return None;
        }
        assert(fields.drop_first() =~= split_from(l@, ',', e + 1));
        j = e + 1;
    }
}

/// Parses the output of `schtasks /Query /FO CSV /NH` into task names: on each line the
/// first field that starts with `"\` is the task name; its quotes and its leading `\`
/// (the root folder) are dropped, a folder path is kept (`Microsoft\Office\TaskB`); lines
/// without such a field, and empty names, are skipped.
pub fn parse_task_names_csv(stdout: &str) -> (r: Vec<String>)
    ensures
        r.deep_view() == task_names_csv(stdout@),
{
    let v = chars_of(stdout);
    let mut out: Vec<String> = Vec::new();
    let mut i: usize = 0;
    while i < v.len()
        invariant
            i <= v.len(),
            v@ == stdout@,
            out.deep_view() + task_names_of_lines(lines_from(v@, i as int)) == task_names_csv(
                stdout@,
            ),
        decreases v.len() - i,
    {
        let e = next_char_in(&v, '\n', i);
        let le = if e < v.len() && e > i && v[e - 1] == '\r' {
            e - 1
        } else {
            e
        };
        let mut line: Vec<char> = Vec::new();
        push_range(&mut line, &v, i, le);
        let ghost ls = lines_from(v@, i as int);
        let ghost before = out.deep_view();
        proof {
            assert(line@ == line_text(v@, i as int, e as int));
            assert(ls[0] == line@);
            assert(ls.drop_first() == lines_from(v@, e + 1));
        }
        match line_task_name_in(&line) {
            Some(n) => {
                if n.len() > 0 {
                    let s = string_from(&n);
                    out.push(s);
                    assert(out.deep_view() =~= before.push(n@));
                    assert(out.deep_view() + task_names_of_lines(ls.drop_first()) =~= before
                        + task_names_of_lines(ls));
                }
            },
            None => {},
        }
        if e < v.len() {
            i = e + 1;
        } else {
            assert(lines_from(v@, e + 1) =~= lines_from(v@, v@.len() as int));
            i = v.len();
        }
    }
    assert(lines_from(v@, v@.len() as int) =~= Seq::<Seq<char>>::empty());
    assert(out.deep_view() + Seq::<Seq<char>>::empty() =~= out.deep_view());
    out
}

proof fn lemma_next_char_shift(pre: Seq<char>, rest: Seq<char>, c: char, j: int)
    requires
        0 <= j <= rest.len(),
    ensures
        next_char(pre + rest, c, pre.len() + j) == pre.len() + next_char(rest, c, j),
    decreases rest.len() - j,
{
    let s = pre + rest;
    if j < rest.len() {
        assert(s[pre.len() + j] == rest[j]);
        if rest[j] != c {
            lemma_next_char_shift(pre, rest, c, j + 1);
        }
    }
}

proof fn lemma_split_shift(pre: Seq<char>, rest: Seq<char>, c: char, j: int)
    requires
        0 <= j <= rest.len(),
    ensures
        split_from(pre + rest, c, pre.len() + j) == split_from(rest, c, j),
    decreases rest.len() + 1 - j,
{
    let s = pre + rest;
    let k = pre.len() as int;
    lemma_next_char_shift(pre, rest, c, j);
    lemma_next_char(rest, c, j);
    let e = next_char(rest, c, j);
    if e < rest.len() {
        lemma_split_shift(pre, rest, c, e + 1);
        assert(s.subrange(k + j, k + e) =~= rest.subrange(j, e));
    } else {
        assert(s.subrange(k + j, s.len() as int) =~= rest.subrange(j, rest.len() as int));
    }
}

/// The task name does not depend on where its column stands: a leading column that holds
/// no comma and no task name (the host name of older `schtasks` versions, for one)
/// changes nothing.
pub proof fn law_leading_column_ignored(field: Seq<char>, rest: Seq<char>)
    requires
        !field.contains(','),
        !is_task_field(trim(field)),
    ensures
        line_task_name(field + seq![','] + rest) == line_task_name(rest),
{
    let pre = field + seq![','];
    let line = pre + rest;
    assert(field + seq![','] + rest == line);
    lemma_next_char(line, ',', 0);
    assert(line[field.len() as int] == ',');
    assert forall|i: int| 0 <= i < field.len() implies line[i] != ',' by {
        assert(line[i] == field[i]);
        if line[i] == ',' {
            assert(field.contains(','));
        }
    }
    assert(next_char(line, ',', 0) == field.len()) by {
        if next_char(line, ',', 0) < field.len() {
            assert(line[next_char(line, ',', 0)] == ',');
        }
    }
    lemma_split_shift(pre, rest, ',', 0);
    assert(line.subrange(0, field.len() as int) =~= field);
    let fields = split_from(line, ',', 0);
    assert(fields.drop_first() =~= split_from(rest, ',', 0));
}

/// Every task name read from the CSV is non-empty and does not start with `\`: the root
/// folder's prefix is always stripped, a sub-folder path is kept as it is.
pub proof fn law_task_names_are_stripped(stdout: Seq<char>)
    ensures
        forall|i: int|
            0 <= i < task_names_csv(stdout).len() ==> (#[trigger] task_names_csv(stdout)[i]).len()
                > 0 && task_names_csv(stdout)[i][0] != '\\',
{
    lemma_names_stripped(lines(stdout));
}

/// At most one name comes from each line, and no name ends with a quote: the quotes
/// around the field are always stripped.
pub proof fn law_task_names_bounded_unquoted(stdout: Seq<char>)
    ensures
        task_names_csv(stdout).len() <= lines(stdout).len(),
        forall|i: int|
            0 <= i < task_names_csv(stdout).len() ==> (#[trigger] task_names_csv(stdout)[i]).last()
                != '"',
{
    lemma_names_unquoted(lines(stdout));
}

proof fn lemma_names_unquoted(ls: Seq<Seq<char>>)
    ensures
        task_names_of_lines(ls).len() <= ls.len(),
        forall|i: int|
            0 <= i < task_names_of_lines(ls).len() ==> (#[trigger] task_names_of_lines(ls)[i]).last()
                != '"',
    decreases ls.len(),
{
    if ls.len() > 0 {
        lemma_names_unquoted(ls.drop_first());
        match line_task_name(ls[0]) {
            Some(n) => {
                if n.len() > 0 {
                    match first_task_field(split(ls[0], ',')) {
                        Some(f) => {
                            let k = CharClass::Exactly('"');
                            let a = skip_class(f, k, 0);
                            let b = back_class(f, k, f.len() as int);
                            lemma_back_class_bounds(f, k, f.len() as int);
                            lemma_skip_class(f, k, 0);
                            let q = trim_class(f, k);
                            assert(q.len() > 0);
                            assert(a < b);
                            assert(q.last() == f[b - 1]);
                            lemma_skip_class(q, CharClass::Exactly('\\'), 0);
                            let c = skip_class(q, CharClass::Exactly('\\'), 0);
                            assert(n == q.subrange(c, q.len() as int));
                            assert(n.last() == q.last());
                        },
                        None => {},
                    }
                    assert(n.last() != '"');
                    let rest = task_names_of_lines(ls.drop_first());
                    assert(task_names_of_lines(ls) == seq![n] + rest);
                    assert forall|i: int| 0 <= i < task_names_of_lines(ls).len() implies (
                    #[trigger] task_names_of_lines(ls)[i]).last() != '"' by {
                        if i > 0 {
                            assert(task_names_of_lines(ls)[i] == rest[i - 1]);
                        } else {
                            assert(task_names_of_lines(ls)[0] == n);
                        }
                    }
                }
            },
            None => {},
        }
    }
}

proof fn lemma_names_stripped(ls: Seq<Seq<char>>)
    ensures
        forall|i: int|
            0 <= i < task_names_of_lines(ls).len() ==> (#[trigger] task_names_of_lines(ls)[i]).len()
                > 0 && task_names_of_lines(ls)[i][0] != '\\',
    decreases ls.len(),
{
    if ls.len() > 0 {
        lemma_names_stripped(ls.drop_first());
        match line_task_name(ls[0]) {
            Some(n) => {
                if n.len() > 0 {
                    match first_task_field(split(ls[0], ',')) {
                        Some(f) => {
                            let q = trim_class(f, CharClass::Exactly('"'));
                            lemma_skip_class(q, CharClass::Exactly('\\'), 0);
                            assert(n == q.subrange(
                                skip_class(q, CharClass::Exactly('\\'), 0),
                                q.len() as int,
                            ));
                        },
                        None => {},
                    }
                    let rest = task_names_of_lines(ls.drop_first());
                    assert(task_names_of_lines(ls) == seq![n] + rest);
                    assert forall|i: int| 0 <= i < task_names_of_lines(ls).len() implies (
                    #[trigger] task_names_of_lines(ls)[i]).len() > 0 && task_names_of_lines(
                        ls,
                    )[i][0] != '\\' by {
                        if i > 0 {
                            assert(task_names_of_lines(ls)[i] == rest[i - 1]);
                        }
                    }
                }
            },
            None => {},
        }
    }
}

/// The CSV field `"\<name>"` of a task in the root folder.
pub open spec fn quoted_task_field(name: Seq<char>) -> Seq<char> {
    seq!['"', '\\'] + name + seq!['"']
}

/// A name as a task can carry it in the CSV: not empty, not starting with `\`, not ending
/// with a quote, without a comma or a line break. Spaces and every other character are
/// allowed.
pub open spec fn plain_task_name(name: Seq<char>) -> bool {
    &&& name.len() > 0
    &&& name[0] != '\\'
    &&& name.last() != '"'
    &&& !name.contains(',')
    &&& !name.contains('\n')
}

/// A line that starts with the task field `"\<name>"`, followed by other columns or by
/// nothing, gives that name, whatever characters (spaces included) it holds.
pub proof fn law_task_field_gives_name(name: Seq<char>, tail: Seq<char>)
    requires
        plain_task_name(name),
        tail.len() == 0 || tail[0] == ',',
    ensures
        line_task_name(quoted_task_field(name) + tail) == Some(name),
{
    let f = quoted_task_field(name);
    let line = f + tail;
    let fl = f.len() as int;
    assert(f.len() == name.len() + 3);
    assert(f[0] == '"' && f[1] == '\\' && f[fl - 1] == '"');
    assert forall|i: int| 0 <= i < fl implies line[i] != ',' by {
        assert(line[i] == f[i]);
        if 2 <= i < fl - 1 {
            assert(f[i] == name[i - 2]);
            if name[i - 2] == ',' {
                assert(name.contains(','));
            }
        }
    }
    lemma_next_char(line, ',', 0);
    assert(next_char(line, ',', 0) == fl) by {
        if next_char(line, ',', 0) < fl {
            assert(line[next_char(line, ',', 0)] == ',');
        }
        if tail.len() > 0 {
            assert(line[fl] == tail[0]);
        }
    }
    let fields = split(line, ',');
    assert(line.subrange(0, fl) =~= f);
    if tail.len() == 0 {
        assert(line =~= f);
    }
    assert(fields[0] == f);
    // The field is its own trim: it starts and ends with a quote.
    assert(skip_class(f, CharClass::Whitespace, 0) == 0);
    assert(back_class(f, CharClass::Whitespace, fl) == fl);
    assert(trim(f) =~= f);
    assert(is_task_field(trim(f)));
    assert(first_task_field(fields) == Some(f));
    // The quotes go, then the leading backslash.
    let k = CharClass::Exactly('"');
    assert(f[fl - 2] == name.last());
    assert(skip_class(f, k, 1) == 1);
    assert(skip_class(f, k, 0) == 1);
    assert(back_class(f, k, fl - 1) == fl - 1);
    assert(back_class(f, k, fl) == fl - 1);
    let q = trim_class(f, k);
    assert(q =~= seq!['\\'] + name);
    let b = CharClass::Exactly('\\');
    assert(q[1] == name[0]);
    assert(skip_class(q, b, 1) == 1);
    assert(skip_class(q, b, 0) == 1);
    assert(trim_start_class(q, b) =~= name);
}

/// A CSV line holding the task field `"\<name>"` first, then any other columns, gives
/// exactly that name as the list: no name the CSV can carry is dropped, whatever
/// characters (spaces included) it holds.
pub proof fn law_task_line_listed(name: Seq<char>, tail: Seq<char>)
    requires
        plain_task_name(name),
        tail.len() == 0 || tail[0] == ',',
        !tail.contains('\n'),
    ensures
        task_names_csv(quoted_task_field(name) + tail + seq!['\n']) == seq![name],
{
    let f = quoted_task_field(name);
    let body = f + tail;
    let s = body + seq!['\n'];
    let e = body.len() as int;
    assert forall|i: int| 0 <= i < e implies s[i] != '\n' by {
        assert(s[i] == body[i]);
        if i < f.len() {
            assert(body[i] == f[i]);
            if 2 <= i < f.len() - 1 {
                assert(f[i] == name[i - 2]);
                if name[i - 2] == '\n' {
                    assert(name.contains('\n'));
                }
            }
        } else {
            assert(body[i] == tail[i - f.len()]);
            if tail[i - f.len()] == '\n' {
                assert(tail.contains('\n'));
            }
        }
    }
    lemma_next_char(s, '\n', 0);
    assert(s[e] == '\n');
    assert(next_char(s, '\n', 0) == e) by {
        if next_char(s, '\n', 0) < e {
            assert(s[next_char(s, '\n', 0)] == '\n');
        }
    }
    assert(lines_from(s, e + 1) =~= Seq::<Seq<char>>::empty());
    let l = line_text(s, 0, e);
    assert(lines(s) =~= seq![l]);
    // The line is the body, or the body without a final carriage return.
    if e > 0 && s[e - 1] == '\r' {
        assert(tail.len() > 0) by {
            if tail.len() == 0 {
                assert(s[e - 1] == f[f.len() - 1]);
            }
        }
        assert(tail.len() >= 2) by {
            if tail.len() == 1 {
                assert(s[e - 1] == tail[0]);
            }
        }
        let t2 = tail.drop_last();
        assert(l =~= f + t2);
        assert(t2[0] == tail[0]);
        law_task_field_gives_name(name, t2);
    } else {
        assert(l =~= f + tail);
        law_task_field_gives_name(name, tail);
    }
    let ls = seq![l];
    assert(ls[0] == l);
    assert(line_task_name(ls[0]) == Some(name));
    assert(ls.drop_first() =~= Seq::<Seq<char>>::empty());
    assert(task_names_of_lines(ls.drop_first()) == Seq::<Seq<char>>::empty());
    assert(task_names_of_lines(ls) =~= seq![name] + Seq::<Seq<char>>::empty());
}

} // verus!
