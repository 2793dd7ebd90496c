//! The persistence codec: the store as a line-oriented text document and
//! back.
//!
//! A document begins with the header line `# TaskList:` and then carries
//! one record line per task, each of the form
//! ` - [<MARK>] [Due: <DUE>] [Completed: <DONE>] <DATA>` and terminated by
//! CRLF. `<MARK>` is `√` for a completed task, a space otherwise; the date
//! fields are either empty or a timestamp rendered in the machine's timezone
//! as `YYYY-MM-DD HH:MM:SS ±HHMM`. Reading skips everything before a line
//! containing the header, then parses each line against that shape; lines
//! that do not match are dropped, a date field that does not parse is read
//! as absent, and a completed task without a completion date receives the
//! current time (reconciliation).

use vstd::prelude::*;
use crate::datetime::{Timestamp, fmt_local, parse_ts_field, lemma_parse_fmt,
    lemma_fmt_no_bad_chars, add_minutes_spec, push_local, parse_ts_field_exec};
use crate::task::{Task, TaskList, TaskModel};
use crate::textutil::{crlf, matches_at, find_from, contains_sub, split_crlf, no_crlf,
    lemma_find_from_first, lemma_find_from_none, lemma_split_crlf_concat,
    lemma_split_crlf_whole, find_sub, str_to_chars, chars_to_string, subvec, views_of};
use crate::clock::now_or_default;

verus! {

/// The completion mark inside the brackets.
pub open spec fn mark_of(c: bool) -> char {
    if c {
        '√'
    } else {
        ' '
    }
}

/// A date field: empty for an absent date, otherwise the timestamp rendered
/// with zone offset `m`.
pub open spec fn opt_field(od: Option<Timestamp>, m: int) -> Seq<char> {
    match od {
        Some(d) => fmt_local(d, m),
        None => Seq::<char>::empty(),
    }
}

/// One record line (without its CRLF terminator), rendered with the given
/// zone offsets for the due and completion dates.
pub open spec fn line_of(t: TaskModel, mdue: int, mdone: int) -> Seq<char> {
    " - ["@ + seq![mark_of(t.completed)] + "] [Due: "@ + opt_field(t.due, mdue)
        + "] [Completed: "@ + opt_field(t.done, mdone) + "] "@ + t.data
}

/// A zone offset is strictly within one day of zero.
pub open spec fn valid_off(m: int) -> bool {
    -1440 < m < 1440
}

/// One offset pair per task, each component a valid zone offset.
pub open spec fn offs_ok(tasks: Seq<TaskModel>, offs: Seq<(int, int)>) -> bool {
    &&& offs.len() == tasks.len()
    &&& forall|i: int|
        0 <= i < offs.len() ==> valid_off(#[trigger] offs[i].0) && valid_off(offs[i].1)
}

/// A description survives the format: the record separator (a CR-LF pair)
/// does not occur in it. Lone carriage returns or line feeds are harmless:
/// a record line is delimited only by the full pair.
pub open spec fn data_safe(s: Seq<char>) -> bool {
    no_crlf(s)
}

/// Well-formed timestamps and separator-free descriptions, for a whole
/// store.
pub open spec fn tasks_wf_safe(tasks: Seq<TaskModel>) -> bool {
    forall|i: int|
        0 <= i < tasks.len() ==> (#[trigger] tasks[i]).wf() && data_safe(tasks[i].data)
}

/// All record lines, each terminated by CRLF.
pub open spec fn lines_of(tasks: Seq<TaskModel>, offs: Seq<(int, int)>) -> Seq<char>
    decreases tasks.len(),
{
    if tasks.len() == 0 {
        Seq::<char>::empty()
    } else {
        line_of(tasks[0], offs[0].0, offs[0].1) + crlf() + lines_of(
            tasks.drop_first(),
            offs.drop_first(),
        )
    }
}

/// The header line that opens every document, with its terminator.
pub open spec fn header_line() -> Seq<char> {
    "# TaskList:\r\n"@
}

/// The header text whose presence in a line starts record parsing.
pub open spec fn header() -> Seq<char> {
    "# TaskList:"@
}

/// The whole serialized document.
pub open spec fn doc_of(tasks: Seq<TaskModel>, offs: Seq<(int, int)>) -> Seq<char> {
    header_line() + lines_of(tasks, offs)
}

/// Appending one task appends one rendered line.
proof fn lemma_lines_of_push(tasks: Seq<TaskModel>, offs: Seq<(int, int)>, t: TaskModel, o: (int, int))
    requires
        offs.len() == tasks.len(),
    ensures
        lines_of(tasks.push(t), offs.push(o)) == lines_of(tasks, offs) + line_of(t, o.0, o.1)
            + crlf(),
    decreases tasks.len(),
{
    if tasks.len() == 0 {
        assert(tasks.push(t).drop_first() =~= tasks);
        assert(offs.push(o).drop_first() =~= offs);
        assert(lines_of(tasks, offs) + line_of(t, o.0, o.1) + crlf() =~= line_of(t, o.0, o.1)
            + crlf());
        assert(lines_of(tasks.push(t), offs.push(o)) =~= line_of(t, o.0, o.1) + crlf()
            + Seq::<char>::empty());
        assert(line_of(t, o.0, o.1) + crlf() + Seq::<char>::empty() =~= line_of(t, o.0, o.1)
            + crlf());
    } else {
        assert(tasks.push(t).drop_first() =~= tasks.drop_first().push(t));
        assert(offs.push(o).drop_first() =~= offs.drop_first().push(o));
        lemma_lines_of_push(tasks.drop_first(), offs.drop_first(), t, o);
        assert(tasks.push(t)[0] == tasks[0]);
        assert(offs.push(o)[0] == offs[0]);
        assert(lines_of(tasks.push(t), offs.push(o)) =~= lines_of(tasks, offs) + line_of(
            t,
            o.0,
            o.1,
        ) + crlf());
    }
}

/// Renders one record line (without its terminator) with the machine
/// zone's offsets; the ghost result carries the offsets used.
#[verifier::rlimit(100)]
fn render_line(t: &Task) -> (r: (Vec<char>, Ghost<(int, int)>))
    requires
        t@.wf(),
    ensures
        valid_off(r.1@.0),
        valid_off(r.1@.1),
        r.0@ == line_of(t@, r.1@.0, r.1@.1),
{
    let mut line: Vec<char> = str_to_chars(" - [");
    if t.completed {
        line.push('√');
    } else {
        line.push(' ');
    }
    let mut seg = str_to_chars("] [Due: ");
    line.append(&mut seg);
    let mdue: i32 = match &t.due_date {
        Some(d) => {
            let m = crate::clock::local_offset_minutes(d);
            push_local(&mut line, d, m);
            m
        },
        None => 0,
    };
    let mut seg = str_to_chars("] [Completed: ");
    line.append(&mut seg);
    let mdone: i32 = match &t.completed_date {
        Some(d) => {
            let m = crate::clock::local_offset_minutes(d);
            push_local(&mut line, d, m);
            m
        },
        None => 0,
    };
    let mut seg = str_to_chars("] ");
    line.append(&mut seg);
    let mut seg = str_to_chars(t.data.as_str());
    line.append(&mut seg);
    proof {
        assert(line@ =~= line_of(t@, mdue as int, mdone as int));
    }
    (line, Ghost((mdue as int, mdone as int)))
}

/// Serializes the store: the document described by [`doc_of`], rendered
/// with the machine zone's offsets. On a store whose descriptions hold no
/// record separator, reading the document back yields exactly the store's
/// tasks.
pub fn convert_tltostring(tl: TaskList) -> (r: String)
    requires
        tl.wf(),
    ensures
        exists|offs: Seq<(int, int)>|
            offs_ok(tl@, offs) && r@ == #[trigger] doc_of(tl@, offs),
        tasks_wf_safe(tl@) ==> parse_doc(r@) == tl@,
{
    let mut out: Vec<char> = str_to_chars("# TaskList:\r\n");
    let ghost mut offs: Seq<(int, int)> = Seq::empty();
    let n = tl.tasks.len();
    let mut i: usize = 0;
    while i < n
        invariant
            i <= n,
            n == tl.tasks@.len(),
            tl.wf(),
            offs.len() == i,
            forall|k: int| 0 <= k < i ==> valid_off(#[trigger] offs[k].0) && valid_off(offs[k].1),
            out@ == header_line() + lines_of(tl@.take(i as int), offs),
        decreases n - i,
    {
        let ghost out0 = out@;
        let ghost tmodel = tl@[i as int];
        let t = &tl.tasks[i];
        proof {
            assert(tl@[i as int].wf());
            assert(tmodel == t@);
        }
        let (mut line, moff) = render_line(t);
        out.append(&mut line);
        out.push('\r');
        out.push('\n');
        proof {
            lemma_lines_of_push(tl@.take(i as int), offs, tmodel, moff@);
            offs = offs.push(moff@);
            assert(tl@.take(i + 1) =~= tl@.take(i as int).push(tmodel));
            assert(out@ =~= header_line() + lines_of(tl@.take(i + 1), offs));
        }
        i = i + 1;
    }
    proof {
        assert(tl@.take(n as int) =~= tl@);
        assert(offs_ok(tl@, offs));
        if tasks_wf_safe(tl@) {
            lemma_round_trip(tl@, offs);
        }
    }
    chars_to_string(&out, 0, out.len())
}

/// Reads one record line against the fixed shape; `None` when the line is
/// not a record.
pub open spec fn parse_line(s: Seq<char>) -> Option<TaskModel> {
    if !(matches_at(s, " - ["@, 0) && s.len() >= 13 && (s[4] == ' ' || s[4] == '√')
        && matches_at(s, "] [Due: "@, 5)) {
        None
    } else {
        match find_from(s, "] [Completed: "@, 13) {
            None => None,
            Some(i) => match find_from(s, "] "@, i + 14) {
                None => None,
                Some(j) => Some(
                    TaskModel {
                        completed: s[4] == '√',
                        data: s.subrange(j + 2, s.len() as int),
                        due: parse_ts_field(s.subrange(13, i)),
                        done: parse_ts_field(s.subrange(i + 14, j)),
                    },
                ),
            },
        }
    }
}

/// Reads a sequence of lines: lines before the one containing the header
/// are ignored, every later line that matches the record shape yields one
/// task, in order.
pub open spec fn parse_lines(lines: Seq<Seq<char>>, found: bool) -> Seq<TaskModel>
    decreases lines.len(),
{
    if lines.len() == 0 {
        Seq::<TaskModel>::empty()
    } else {
        let found2 = found || contains_sub(lines[0], header());
        let rest = parse_lines(lines.drop_first(), found2);
        if found2 {
            match parse_line(lines[0]) {
                Some(t) => seq![t] + rest,
                None => rest,
            }
        } else {
            rest
        }
    }
}

/// Whether the header has been seen once `lines` have gone by.
pub open spec fn found_after(lines: Seq<Seq<char>>, found: bool) -> bool
    decreases lines.len(),
{
    if lines.len() == 0 {
        found
    } else {
        found_after(lines.drop_first(), found || contains_sub(lines[0], header()))
    }
}

/// The tasks a document denotes, before reconciliation.
pub open spec fn parse_doc(s: Seq<char>) -> Seq<TaskModel> {
    parse_lines(split_crlf(s), false)
}

/// `out` is `parsed` after reconciliation: identical but that a completed
/// task without a completion date has received one (some well-formed
/// instant).
pub open spec fn reconciles(out: Seq<TaskModel>, parsed: Seq<TaskModel>) -> bool {
    &&& out.len() == parsed.len()
    &&& forall|i: int|
        0 <= i < out.len() ==> {
            let o = #[trigger] out[i];
            let p = parsed[i];
            &&& o.completed == p.completed
            &&& o.data == p.data
            &&& o.due == p.due
            &&& if p.completed && p.done is None {
                o.done is Some && o.done->Some_0.wf()
            } else {
                o.done == p.done
            }
        }
}


/// Date fields hold no carriage return, line feed, or closing bracket.
proof fn lemma_opt_field_clean(od: Option<Timestamp>, m: int)
    ensures
        opt_field(od, m).len() == 0 || opt_field(od, m).len() == 25,
        forall|k: int|
            0 <= k < opt_field(od, m).len() ==> {
                let c = #[trigger] opt_field(od, m)[k];
                c != '\r' && c != '\n' && c != ']'
            },
{
    match od {
        None => {},
        Some(d) => {
            match add_minutes_spec(d, m) {
                Some(l) => {
                    lemma_fmt_no_bad_chars(l, m);
                },
                None => {
                    lemma_fmt_no_bad_chars(d, 0);
                },
            }
        },
    }
}

/// A rendered record line holds no CRLF pair when its description holds
/// none: everything before the description is free of carriage returns, so
/// a pair could only lie inside the description, where the premise
/// excludes it.
#[verifier::rlimit(100)]
proof fn lemma_line_no_crlf(t: TaskModel, m1: int, m2: int)
    requires
        data_safe(t.data),
    ensures
        no_crlf(line_of(t, m1, m2)),
{
    reveal_strlit(" - [");
    reveal_strlit("] [Due: ");
    reveal_strlit("] [Completed: ");
    reveal_strlit("] ");
    let s = line_of(t, m1, m2);
    let df = opt_field(t.due, m1);
    let cf = opt_field(t.done, m2);
    let i0 = 13 + df.len() as int;
    let dn = i0 + 14;
    let j0 = dn + cf.len() as int;
    let ds = j0 + 2;
    lemma_opt_field_clean(t.due, m1);
    lemma_opt_field_clean(t.done, m2);
    assert(s.len() == 29 + df.len() + cf.len() + t.data.len());
    assert forall|k: int| 0 <= k < ds implies #[trigger] s[k] != '\r' by {
        if 13 <= k < i0 {
            assert(s[k] == df[k - 13]);
        } else if dn <= k < j0 {
            assert(s[k] == cf[k - dn]);
        }
    }
    assert forall|j: int| !(#[trigger] matches_at(s, crlf(), j)) by {
        if matches_at(s, crlf(), j) {
            assert(crlf()[0] == '\r');
            assert(crlf()[1] == '\n');
            assert(s[j + 0] == crlf()[0]);
            assert(s[j + 1] == crlf()[1]);
            assert(j >= ds);
            assert(s[j] == t.data[j - ds]);
            assert(s[j + 1] == t.data[j + 1 - ds]);
            assert(matches_at(t.data, crlf(), j - ds)) by {
                assert forall|k: int|
                    0 <= k < 2 implies t.data[(j - ds) + k] == #[trigger] crlf()[k] by {
                    if k == 0 {
                        assert(t.data[(j - ds) + 0] == s[j]);
                    } else {
                        assert(t.data[(j - ds) + 1] == s[j + 1]);
                    }
                }
            }
        }
    }
}

/// Where each part of a rendered record line stands.
#[verifier::rlimit(100)]
proof fn lemma_line_layout(t: TaskModel, m1: int, m2: int)
    ensures
        ({
            let s = line_of(t, m1, m2);
            let df = opt_field(t.due, m1);
            let cf = opt_field(t.done, m2);
            let i0 = 13 + df.len() as int;
            let dn = i0 + 14;
            let j0 = dn + cf.len() as int;
            &&& s.len() == 29 + df.len() + cf.len() + t.data.len()
            &&& matches_at(s, " - ["@, 0)
            &&& s[4] == mark_of(t.completed)
            &&& matches_at(s, "] [Due: "@, 5)
            &&& matches_at(s, "] [Completed: "@, i0)
            &&& matches_at(s, "] "@, j0)
            &&& s.subrange(13, i0) == df
            &&& s.subrange(dn, j0) == cf
            &&& s.subrange(j0 + 2, s.len() as int) == t.data
        }),
{
    reveal_strlit(" - [");
    reveal_strlit("] [Due: ");
    reveal_strlit("] [Completed: ");
    reveal_strlit("] ");
    let s = line_of(t, m1, m2);
    let df = opt_field(t.due, m1);
    let cf = opt_field(t.done, m2);
    let i0 = 13 + df.len() as int;
    let dn = i0 + 14;
    let j0 = dn + cf.len() as int;
    assert(s.len() == 29 + df.len() + cf.len() + t.data.len());
    assert(matches_at(s, " - ["@, 0));
    assert(matches_at(s, "] [Due: "@, 5));
    assert(matches_at(s, "] [Completed: "@, i0));
    assert(matches_at(s, "] "@, j0));
    assert(s.subrange(13, i0) =~= df);
    assert(s.subrange(dn, j0) =~= cf);
    assert(s.subrange(j0 + 2, s.len() as int) =~= t.data);
}

/// The two delimiters after the date fields are found exactly where the
/// rendering put them: the fields themselves hold no closing bracket.
#[verifier::rlimit(100)]
proof fn lemma_line_finds(t: TaskModel, m1: int, m2: int)
    ensures
        ({
            let s = line_of(t, m1, m2);
            let df = opt_field(t.due, m1);
            let cf = opt_field(t.done, m2);
            let i0 = 13 + df.len() as int;
            let dn = i0 + 14;
            let j0 = dn + cf.len() as int;
            &&& find_from(s, "] [Completed: "@, 13) == Some(i0)
            &&& find_from(s, "] "@, dn) == Some(j0)
        }),
{
    reveal_strlit("] [Completed: ");
    reveal_strlit("] ");
    lemma_line_layout(t, m1, m2);
    lemma_opt_field_clean(t.due, m1);
    lemma_opt_field_clean(t.done, m2);
    let s = line_of(t, m1, m2);
    let df = opt_field(t.due, m1);
    let cf = opt_field(t.done, m2);
    let i0 = 13 + df.len() as int;
    let dn = i0 + 14;
    let j0 = dn + cf.len() as int;
    assert(("] [Completed: "@)[0] == ']');
    assert forall|j: int| 13 <= j < i0 implies !matches_at(s, "] [Completed: "@, j) by {
        if matches_at(s, "] [Completed: "@, j) {
            assert(s[j + 0] == ("] [Completed: "@)[0]);
            assert(s[j] == s.subrange(13, i0)[j - 13]);
        }
    }
    lemma_find_from_first(s, "] [Completed: "@, 13, i0);
    assert(("] "@)[0] == ']');
    assert forall|j: int| dn <= j < j0 implies !matches_at(s, "] "@, j) by {
        if matches_at(s, "] "@, j) {
            assert(s[j + 0] == ("] "@)[0]);
            assert(s[j] == s.subrange(dn, j0)[j - dn]);
        }
    }
    lemma_find_from_first(s, "] "@, dn, j0);
}

/// A rendered record line parses back to exactly the task it renders.
#[verifier::rlimit(100)]
proof fn lemma_parse_line_of(t: TaskModel, m1: int, m2: int)
    requires
        t.wf(),
        data_safe(t.data),
        valid_off(m1),
        valid_off(m2),
    ensures
        parse_line(line_of(t, m1, m2)) == Some(t),
        no_crlf(line_of(t, m1, m2)),
{
    lemma_line_no_crlf(t, m1, m2);
    lemma_line_layout(t, m1, m2);
    lemma_line_finds(t, m1, m2);
    let s = line_of(t, m1, m2);
    let df = opt_field(t.due, m1);
    let cf = opt_field(t.done, m2);
    let i0 = 13 + df.len() as int;
    let dn = i0 + 14;
    let j0 = dn + cf.len() as int;
    match t.due {
        Some(d) => {
            lemma_parse_fmt(d, m1);
        },
        None => {
            assert(parse_ts_field(df) is None);
        },
    }
    match t.done {
        Some(d) => {
            lemma_parse_fmt(d, m2);
        },
        None => {
            assert(parse_ts_field(cf) is None);
        },
    }
    assert(s[4] == '\u{221a}' <==> t.completed);
    assert(parse_line(s)->Some_0 =~= t);
}

/// Prepending one record line prepends one parsed task.
proof fn lemma_parse_lines_cons(l0: Seq<char>, rest: Seq<Seq<char>>, t: TaskModel)
    requires
        parse_line(l0) == Some(t),
    ensures
        parse_lines(seq![l0] + rest, true) == seq![t] + parse_lines(rest, true),
{
    let pieces = seq![l0] + rest;
    assert(pieces.drop_first() =~= rest);
    assert(pieces[0] == l0);
    assert(parse_lines(pieces, true) =~= seq![t] + parse_lines(rest, true));
}

/// One rendered record line followed by further text parses as that task
/// followed by whatever the rest parses as.
#[verifier::rlimit(100)]
proof fn lemma_records_step(t: TaskModel, m1: int, m2: int, rest: Seq<char>)
    requires
        t.wf(),
        data_safe(t.data),
        valid_off(m1),
        valid_off(m2),
    ensures
        parse_lines(split_crlf(line_of(t, m1, m2) + crlf() + rest), true) == seq![t]
            + parse_lines(split_crlf(rest), true),
{
    lemma_parse_line_of(t, m1, m2);
    lemma_split_crlf_concat(line_of(t, m1, m2), rest);
    lemma_parse_lines_cons(line_of(t, m1, m2), split_crlf(rest), t);
}

/// Record lines followed by their separators parse back, once the header
/// has been seen, to exactly the rendered tasks.
#[verifier::rlimit(100)]
proof fn lemma_parse_lines_records(tasks: Seq<TaskModel>, offs: Seq<(int, int)>)
    requires
        tasks_wf_safe(tasks),
        offs_ok(tasks, offs),
    ensures
        parse_lines(split_crlf(lines_of(tasks, offs)), true) == tasks,
    decreases tasks.len(),
{
    if tasks.len() == 0 {
        let e = Seq::<char>::empty();
        assert(no_crlf(e)) by {
            assert forall|j: int| !(#[trigger] matches_at(e, crlf(), j)) by {}
        }
        lemma_split_crlf_whole(e);
        assert(parse_line(e) is None);
        assert(seq![e].drop_first() =~= Seq::<Seq<char>>::empty());
        assert(parse_lines(Seq::<Seq<char>>::empty(), true) == Seq::<TaskModel>::empty());
        assert(parse_lines(seq![e], true) =~= Seq::<TaskModel>::empty());
    } else {
        let t = tasks[0];
        let rest = lines_of(tasks.drop_first(), offs.drop_first());
        assert(tasks_wf_safe(tasks.drop_first())) by {
            assert forall|i: int|
                0 <= i < tasks.drop_first().len() implies (#[trigger] tasks.drop_first()[i]).wf()
                && data_safe(tasks.drop_first()[i].data) by {
                assert(tasks.drop_first()[i] == tasks[i + 1]);
            }
        }
        assert(offs_ok(tasks.drop_first(), offs.drop_first())) by {
            assert forall|i: int|
                0 <= i < offs.drop_first().len() implies valid_off(
                #[trigger] offs.drop_first()[i].0,
            ) && valid_off(offs.drop_first()[i].1) by {
                assert(offs.drop_first()[i] == offs[i + 1]);
            }
        }
        lemma_parse_lines_records(tasks.drop_first(), offs.drop_first());
        lemma_records_step(t, offs[0].0, offs[0].1, rest);
        assert(seq![t] + tasks.drop_first() =~= tasks);
    }
}

/// The round trip of the codec: any store whose timestamps are well formed
/// and whose descriptions hold no record separator is read back, task for
/// task, from its own rendering, whatever zone offsets the rendering used.
pub proof fn lemma_round_trip(tasks: Seq<TaskModel>, offs: Seq<(int, int)>)
    requires
        tasks_wf_safe(tasks),
        offs_ok(tasks, offs),
    ensures
        parse_doc(doc_of(tasks, offs)) == tasks,
{
    reveal_strlit("# TaskList:\r\n");
    reveal_strlit("# TaskList:");
    reveal_strlit(" - [");
    let body = lines_of(tasks, offs);
    let doc = doc_of(tasks, offs);
    let h = header();
    assert(doc =~= h + crlf() + body);
    assert(no_crlf(h)) by {
        assert forall|j: int| !(#[trigger] matches_at(h, crlf(), j)) by {
            if matches_at(h, crlf(), j) {
                assert(crlf()[0] == '\r');
                assert(h[j + 0] == crlf()[0]);
            }
        }
    }
    lemma_split_crlf_concat(h, body);
    let pieces = split_crlf(doc);
    assert(pieces =~= seq![h] + split_crlf(body));
    // The header piece starts record parsing but is itself no record.
    assert(contains_sub(h, h)) by {
        assert(matches_at(h, h, 0));
        lemma_find_from_first(h, h, 0, 0);
    }
    assert(h.len() == 11);
    assert(parse_line(h) is None);
    lemma_parse_lines_records(tasks, offs);
    assert(pieces[0] == h);
    assert(pieces.drop_first() =~= split_crlf(body));
    assert(parse_lines(pieces, false) =~= tasks);
}

/// A line that parses as a record yields a well-formed task.
proof fn lemma_parse_line_wf(s: Seq<char>)
    requires
        parse_line(s) is Some,
    ensures
        parse_line(s)->Some_0.wf(),
{
    let t = parse_line(s)->Some_0;
    if t.due is Some {
        let i = find_from(s, "] [Completed: "@, 13)->Some_0;
        crate::datetime::lemma_parse_field_wf(s.subrange(13, i));
    }
    if t.done is Some {
        let i = find_from(s, "] [Completed: "@, 13)->Some_0;
        let j = find_from(s, "] "@, i + 14)->Some_0;
        crate::datetime::lemma_parse_field_wf(s.subrange(i + 14, j));
    }
}

/// Executable counterpart of [`parse_line`].
fn parse_line_exec(line: &Vec<char>) -> (r: Option<Task>)
    ensures
        match r {
            Some(t) => parse_line(line@) == Some(t@),
            None => parse_line(line@) is None,
        },
{
    let p0 = str_to_chars(" - [");
    proof {
        reveal_strlit(" - [");
        reveal_strlit("] [Due: ");
        reveal_strlit("] [Completed: ");
        reveal_strlit("] ");
    }
    if line.len() < 13 {
        return None;
    }
    if !crate::textutil::matches_exec(line, &p0, 0) {
        return None;
    }
    let c4 = line[4];
    if !(c4 == ' ' || c4 == '√') {
        return None;
    }
    let p2 = str_to_chars("] [Due: ");
    if !crate::textutil::matches_exec(line, &p2, 5) {
        return None;
    }
    let pc = str_to_chars("] [Completed: ");
    let i = match find_sub(line, &pc, 13) {
        Some(i) => i,
        None => {
            return None;
        },
    };
    let pe = str_to_chars("] ");
    let j = match find_sub(line, &pe, i + 14) {
        Some(j) => j,
        None => {
            return None;
        },
    };
    let due = parse_ts_field_exec(line, 13, i);
    let done = parse_ts_field_exec(line, i + 14, j);
    let data = chars_to_string(line, j + 2, line.len());
    let t = Task { completed: c4 == '√', data, due_date: due, completed_date: done };
    proof {
        assert(parse_line(line@)->Some_0 =~= t@);
    }
    Some(t)
}

/// Splitting off one processed prefix of lines.
proof fn lemma_parse_lines_concat(l1: Seq<Seq<char>>, l2: Seq<Seq<char>>, found: bool)
    ensures
        parse_lines(l1 + l2, found) == parse_lines(l1, found) + parse_lines(
            l2,
            found_after(l1, found),
        ),
        found_after(l1 + l2, found) == found_after(l2, found_after(l1, found)),
    decreases l1.len(),
{
    if l1.len() == 0 {
        assert(l1 + l2 =~= l2);
        assert(parse_lines(l1, found) + parse_lines(l2, found) =~= parse_lines(l2, found));
    } else {
        let found2 = found || contains_sub(l1[0], header());
        assert((l1 + l2).drop_first() =~= l1.drop_first() + l2);
        assert((l1 + l2)[0] == l1[0]);
        lemma_parse_lines_concat(l1.drop_first(), l2, found2);
        let a = parse_lines(l1.drop_first(), found2);
        let b = parse_lines(l2, found_after(l1.drop_first(), found2));
        if found2 {
            match parse_line(l1[0]) {
                Some(t) => {
                    assert(seq![t] + (a + b) =~= (seq![t] + a) + b);
                },
                None => {},
            }
        }
    }
}

/// Executable counterpart of [`split_crlf`].
fn split_crlf_exec(v: &Vec<char>) -> (r: Vec<Vec<char>>)
    ensures
        r@.map_values(|w: Vec<char>| w@) == split_crlf(v@),
{
    let sep = str_to_chars("\r\n");
    proof {
        reveal_strlit("\r\n");
        assert(sep@ =~= crlf());
    }
    let mut pieces: Vec<Vec<char>> = Vec::new();
    let mut rest = subvec(v, 0, v.len());
    proof {
        assert(rest@ =~= v@);
        assert(views_of(pieces@) =~= Seq::<Seq<char>>::empty());
    }
    loop
        invariant
            sep@ == crlf(),
            split_crlf(v@) == views_of(pieces@) + split_crlf(rest@),
        decreases rest@.len(),
    {
        let ghost pieces0 = views_of(pieces@);
        let ghost rest0 = rest@;
        match find_sub(&rest, &sep, 0) {
            Some(i) => {
                let rlen = rest.len();
                let piece = subvec(&rest, 0, i);
                let newrest = subvec(&rest, i + 2, rlen);
                pieces.push(piece);
                rest = newrest;
                proof {
                    assert(split_crlf(rest0) == seq![rest0.subrange(0, i as int)] + split_crlf(
                        rest0.subrange(i + 2, rest0.len() as int),
                    ));
                    assert(views_of(pieces@) =~= pieces0 + seq![
                        rest0.subrange(0, i as int),
                    ]);
                    assert(pieces0 + seq![rest0.subrange(0, i as int)] + split_crlf(rest@)
                        =~= pieces0 + (seq![rest0.subrange(0, i as int)] + split_crlf(rest@)));
                }
            },
            None => {
                let piece = subvec(&rest, 0, rest.len());
                proof {
                    assert(piece@ =~= rest0);
                }
                pieces.push(piece);
                proof {
                    assert(split_crlf(rest0) == seq![rest0]);
                    assert(views_of(pieces@) =~= pieces0 + seq![rest0]);
                }
                return pieces;
            },
        }
    }
}

/// Deserializes a document: the tasks of [`parse_doc`], with a completed
/// task lacking a completion date reconciled to the current instant. Never
/// fails; text without the header or without a single well-formed record
/// yields the empty store.
pub fn convert_stringtotl(data: String) -> (r: TaskList)
    ensures
        reconciles(r@, parse_doc(data@)),
        r.wf(),
{
    let chars = str_to_chars(data.as_str());
    let pieces = split_crlf_exec(&chars);
    let ghost lines = views_of(pieces@);
    let hp = str_to_chars("# TaskList:");
    proof {
        reveal_strlit("# TaskList:");
        assert(hp@ =~= header());
    }
    let mut tl = TaskList { tasks: Vec::new() };
    let mut found = false;
    let n = pieces.len();
    let mut k: usize = 0;
    proof {
        assert(lines.take(0) =~= Seq::<Seq<char>>::empty());
        assert(tl@ =~= Seq::<TaskModel>::empty());
    }
    while k < n
        invariant
            k <= n,
            n == pieces@.len(),
            hp@ == header(),
            lines == views_of(pieces@),
            found == found_after(lines.take(k as int), false),
            reconciles(tl@, parse_lines(lines.take(k as int), false)),
            tl.wf(),
        decreases n - k,
    {
        let ghost done_before = parse_lines(lines.take(k as int), false);
        let ghost found_before = found;
        let ghost tl0 = tl@;
        let piece = &pieces[k];
        proof {
            assert(lines[k as int] == piece@);
        }
        if find_sub(piece, &hp, 0).is_some() {
            found = true;
        }
        proof {
            assert(found == (found_before || contains_sub(piece@, header())));
        }
        let ghost found2 = found_before || contains_sub(lines[k as int], header());
        if found {
            match parse_line_exec(piece) {
                Some(t) => {
                    let mut t = t;
                    proof {
                        lemma_parse_line_wf(piece@);
                    }
                    if t.completed && t.completed_date.is_none() {
                        t.completed_date = Some(now_or_default());
                    }
                    tl.tasks.push(t);
                    proof {
                        assert(tl@ =~= tl0.push(t@));
                    }
                },
                None => {},
            }
        }
        proof {
            lemma_parse_lines_concat(lines.take(k as int), seq![lines[k as int]], false);
            assert(lines.take(k + 1) =~= lines.take(k as int) + seq![lines[k as int]]);
            assert(seq![lines[k as int]].drop_first() =~= Seq::<Seq<char>>::empty());
            assert(parse_lines(seq![lines[k as int]].drop_first(), found2)
                == Seq::<TaskModel>::empty());
            assert(found_after(seq![lines[k as int]].drop_first(), found2) == found2);
            assert(found_after(seq![lines[k as int]], found_before) == found2);
            assert(found == found_after(lines.take(k + 1), false));
            let single = parse_lines(seq![lines[k as int]], found_before);
            assert(parse_lines(lines.take(k + 1), false) == done_before + single);
            if found2 && parse_line(piece@) is Some {
                let p = parse_line(piece@)->Some_0;
                assert(single =~= seq![p]);
                assert(reconciles(tl@, done_before + single)) by {
                    assert(tl@.len() == tl0.len() + 1);
                    assert((done_before + single).len() == done_before.len() + 1);
                    assert(forall|j: int|
                        0 <= j < tl0.len() ==> tl@[j] == tl0[j] && (done_before + single)[j]
                            == done_before[j]);
                    assert((done_before + single)[done_before.len() as int] == p);
                }
            } else {
                assert(single =~= Seq::<TaskModel>::empty());
                assert(done_before + single =~= done_before);
                assert(tl@ =~= tl0);
            }
        }
        k = k + 1;
    }
    proof {
        assert(lines.take(n as int) =~= lines);
    }
    tl
}

} // verus!
