//! The schedule text grammar.  One line is either blank or a comment,
//! a deadline directive `DEADLINE YYYY-MM-DD description` (keyword
//! case-insensitive), or a task line `HH:MM-HH:MM description`; any
//! malformed line is silently dropped.  `load_schedule` turns the
//! lines into a `Schedule` whose tasks are sorted by start time.

use vstd::prelude::*;
use vstd::string::*;
use crate::dates;
use crate::schedule::{Task, Deadline, Schedule};

verus! {

pub open spec fn is_space_char(c: char) -> bool {
    c == ' ' || c == '\t' || c == '\r' || c == '\n'
}

pub open spec fn is_digit_char(c: char) -> bool {
    48 <= (c as u32) && (c as u32) <= 57
}

pub open spec fn digit_val(c: char) -> int {
    (c as u32) - 48
}

/// `i` is the position of the first non-blank character of `s`.
pub open spec fn is_first_nonspace(s: Seq<char>, i: int) -> bool {
    &&& 0 <= i < s.len()
    &&& !is_space_char(s[i])
    &&& forall|j: int| 0 <= j < i ==> is_space_char(s[j])
}

/// `i` is the position of the last non-blank character of `s`.
pub open spec fn is_last_nonspace(s: Seq<char>, i: int) -> bool {
    &&& 0 <= i < s.len()
    &&& !is_space_char(s[i])
    &&& forall|j: int| i < j < s.len() ==> is_space_char(s[j])
}

/// `s` with leading and trailing blanks removed.
pub open spec fn spec_trim(s: Seq<char>) -> Seq<char> {
    if exists|i: int| is_first_nonspace(s, i) {
        s.subrange(
            choose|i: int| is_first_nonspace(s, i),
            (choose|i: int| is_last_nonspace(s, i)) + 1,
        )
    } else {
        Seq::empty()
    }
}

/// `i` is the position of the first space of `s`.
pub open spec fn is_first_space(s: Seq<char>, i: int) -> bool {
    &&& 0 <= i < s.len()
    &&& s[i] == ' '
    &&& forall|j: int| 0 <= j < i ==> s[j] != ' '
}

/// Position of the first space of `s`, or -1 when it has none.
pub open spec fn first_space(s: Seq<char>) -> int {
    if exists|i: int| is_first_space(s, i) {
        choose|i: int| is_first_space(s, i)
    } else {
        -1
    }
}

/// A well-formed `HH:MM` token with a two-digit zero-padded hour
/// below 24 and minute below 60.
pub open spec fn valid_time_text(s: Seq<char>) -> bool {
    &&& s.len() == 5
    &&& is_digit_char(s[0])
    &&& is_digit_char(s[1])
    &&& s[2] == ':'
    &&& is_digit_char(s[3])
    &&& is_digit_char(s[4])
    &&& digit_val(s[0]) * 10 + digit_val(s[1]) <= 23
    &&& digit_val(s[3]) * 10 + digit_val(s[4]) <= 59
}

pub open spec fn time_hour(s: Seq<char>) -> int {
    digit_val(s[0]) * 10 + digit_val(s[1])
}

pub open spec fn time_minute(s: Seq<char>) -> int {
    digit_val(s[3]) * 10 + digit_val(s[4])
}

/// A well-formed `YYYY-MM-DD` token naming a real calendar date.
pub open spec fn valid_date_text(s: Seq<char>) -> bool {
    &&& s.len() == 10
    &&& is_digit_char(s[0])
    &&& is_digit_char(s[1])
    &&& is_digit_char(s[2])
    &&& is_digit_char(s[3])
    &&& s[4] == '-'
    &&& is_digit_char(s[5])
    &&& is_digit_char(s[6])
    &&& s[7] == '-'
    &&& is_digit_char(s[8])
    &&& is_digit_char(s[9])
    &&& dates::valid_date(date_year(s), date_month(s), date_day(s))
}

pub open spec fn date_year(s: Seq<char>) -> int {
    digit_val(s[0]) * 1000 + digit_val(s[1]) * 100 + digit_val(s[2]) * 10 + digit_val(s[3])
}

pub open spec fn date_month(s: Seq<char>) -> int {
    digit_val(s[5]) * 10 + digit_val(s[6])
}

pub open spec fn date_day(s: Seq<char>) -> int {
    digit_val(s[8]) * 10 + digit_val(s[9])
}

/// The line begins with the case-insensitive keyword `DEADLINE`
/// followed by a space.
pub open spec fn has_deadline_keyword(s: Seq<char>) -> bool {
    &&& s.len() >= 9
    &&& (s[0] == 'D' || s[0] == 'd')
    &&& (s[1] == 'E' || s[1] == 'e')
    &&& (s[2] == 'A' || s[2] == 'a')
    &&& (s[3] == 'D' || s[3] == 'd')
    &&& (s[4] == 'L' || s[4] == 'l')
    &&& (s[5] == 'I' || s[5] == 'i')
    &&& (s[6] == 'N' || s[6] == 'n')
    &&& (s[7] == 'E' || s[7] == 'e')
    &&& s[8] == ' '
}

/// What one (already trimmed) line denotes.
pub enum LineForm {
    TaskForm { start_h: int, start_m: int, end_h: int, end_m: int, desc: Seq<char> },
    DeadlineForm { y: int, m: int, d: int, desc: Seq<char> },
    Nothing,
}

/// Classification of a trimmed line: blank or comment lines and every
/// malformed line mean nothing; a task line must have a valid time
/// range with `start < end`.
pub open spec fn classify(t: Seq<char>) -> LineForm {
    if t.len() == 0 || t[0] == '#' {
        LineForm::Nothing
    } else if has_deadline_keyword(t) {
        let rest = t.subrange(9, t.len() as int);
        let sp = first_space(rest);
        if sp < 0 {
            LineForm::Nothing
        } else {
            let tok = rest.subrange(0, sp);
            let desc = rest.subrange(sp + 1, rest.len() as int);
            if valid_date_text(tok) {
                LineForm::DeadlineForm {
                    y: date_year(tok),
                    m: date_month(tok),
                    d: date_day(tok),
                    desc,
                }
            } else {
                LineForm::Nothing
            }
        }
    } else {
        let sp = first_space(t);
        if sp < 0 {
            LineForm::Nothing
        } else {
            let range = t.subrange(0, sp);
            let desc = t.subrange(sp + 1, t.len() as int);
            if range.len() == 11 && range[5] == '-' && valid_time_text(range.subrange(0, 5))
                && valid_time_text(range.subrange(6, 11)) && time_hour(range.subrange(0, 5)) * 3600
                + time_minute(range.subrange(0, 5)) * 60 < time_hour(range.subrange(6, 11)) * 3600
                + time_minute(range.subrange(6, 11)) * 60 {
                LineForm::TaskForm {
                    start_h: time_hour(range.subrange(0, 5)),
                    start_m: time_minute(range.subrange(0, 5)),
                    end_h: time_hour(range.subrange(6, 11)),
                    end_m: time_minute(range.subrange(6, 11)),
                    desc,
                }
            } else {
                LineForm::Nothing
            }
        }
    }
}

/// Classification of a raw line, blanks stripped first.
pub open spec fn classify_line(line: Seq<char>) -> LineForm {
    classify(spec_trim(line))
}

/// What `parse_line` returns.
pub enum LineItem {
    TaskLine(Task),
    DeadlineLine(Deadline),
    SkipLine,
}

/// The form a parsed task denotes.
pub open spec fn task_form_of(t: Task) -> LineForm {
    LineForm::TaskForm {
        start_h: t.start_hour as int,
        start_m: t.start_min as int,
        end_h: t.end_hour as int,
        end_m: t.end_min as int,
        desc: t.description@,
    }
}

/// The form a parsed deadline denotes.
pub open spec fn deadline_form_of(d: Deadline) -> LineForm {
    LineForm::DeadlineForm {
        y: d.year as int,
        m: d.month as int,
        d: d.day as int,
        desc: d.description@,
    }
}

/// The parse result carries exactly the classified form.
pub open spec fn line_matches(r: LineItem, f: LineForm) -> bool {
    match f {
        LineForm::TaskForm { .. } => {
            &&& r is TaskLine
            &&& r->TaskLine_0.wf()
            &&& r->TaskLine_0.fresh()
            &&& task_form_of(r->TaskLine_0) == f
        },
        LineForm::DeadlineForm { .. } => {
            &&& r is DeadlineLine
            &&& r->DeadlineLine_0.wf()
            &&& deadline_form_of(r->DeadlineLine_0) == f
        },
        LineForm::Nothing => r is SkipLine,
    }
}

/// Reads an `HH:MM` token at offset `at` of `s`.
fn parse_time_at(s: &str, at: usize) -> (r: Option<(u32, u32)>)
    requires
        at + 5 <= s@.len(),
    ensures
        match r {
            Some(hm) => {
                &&& valid_time_text(s@.subrange(at as int, at + 5))
                &&& hm.0 == time_hour(s@.subrange(at as int, at + 5))
                &&& hm.1 == time_minute(s@.subrange(at as int, at + 5))
            },
            None => !valid_time_text(s@.subrange(at as int, at + 5)),
        },
{
    let n: usize = s.unicode_len();
    let ghost tok = s@.subrange(at as int, at + 5);
    let c0: char = s.get_char(at);
    let c1: char = s.get_char(at + 1);
    let c2: char = s.get_char(at + 2);
    let c3: char = s.get_char(at + 3);
    let c4: char = s.get_char(at + 4);
    proof {
        assert(tok[0] == c0 && tok[1] == c1 && tok[2] == c2 && tok[3] == c3 && tok[4] == c4);
    }
    if !(c0 as u32 >= 48 && c0 as u32 <= 57 && c1 as u32 >= 48 && c1 as u32 <= 57 && c2 == ':'
        && c3 as u32 >= 48 && c3 as u32 <= 57 && c4 as u32 >= 48 && c4 as u32 <= 57) {
        return None;
    }
    let hour: u32 = (c0 as u32 - 48) * 10 + (c1 as u32 - 48);
    let minute: u32 = (c3 as u32 - 48) * 10 + (c4 as u32 - 48);
    if hour <= 23 && minute <= 59 {
        Some((hour, minute))
    } else {
        None
    }
}

/// Reads a whole `YYYY-MM-DD` token.
fn parse_date_token(s: &str) -> (r: Option<(i32, u32, u32)>)
    ensures
        match r {
            Some(ymd) => {
                &&& valid_date_text(s@)
                &&& ymd.0 == date_year(s@)
                &&& ymd.1 == date_month(s@)
                &&& ymd.2 == date_day(s@)
            },
            None => !valid_date_text(s@),
        },
{
    let n: usize = s.unicode_len();
    if n != 10 {
        return None;
    }
    let c0: char = s.get_char(0);
    let c1: char = s.get_char(1);
    let c2: char = s.get_char(2);
    let c3: char = s.get_char(3);
    let c4: char = s.get_char(4);
    let c5: char = s.get_char(5);
    let c6: char = s.get_char(6);
    let c7: char = s.get_char(7);
    let c8: char = s.get_char(8);
    let c9: char = s.get_char(9);
    if !(c0 as u32 >= 48 && c0 as u32 <= 57 && c1 as u32 >= 48 && c1 as u32 <= 57 && c2 as u32
        >= 48 && c2 as u32 <= 57 && c3 as u32 >= 48 && c3 as u32 <= 57 && c4 == '-' && c5 as u32
        >= 48 && c5 as u32 <= 57 && c6 as u32 >= 48 && c6 as u32 <= 57 && c7 == '-' && c8 as u32
        >= 48 && c8 as u32 <= 57 && c9 as u32 >= 48 && c9 as u32 <= 57) {
        return None;
    }
    let year: u32 = (c0 as u32 - 48) * 1000 + (c1 as u32 - 48) * 100 + (c2 as u32 - 48) * 10 + (
    c3 as u32 - 48);
    let month: u32 = (c5 as u32 - 48) * 10 + (c6 as u32 - 48);
    let day: u32 = (c8 as u32 - 48) * 10 + (c9 as u32 - 48);
    if month < 1 || month > 12 {
        return None;
    }
    let ml: u32 = dates::month_length(year as i32, month);
    if day < 1 || day > ml {
        return None;
    }
    Some((year as i32, month, day))
}

/// Position of the first space of `s` at or after `from`, given that
/// no space stands before `from`.
fn find_space(s: &str, from: usize) -> (r: Option<usize>)
    requires
        from <= s@.len(),
        forall|j: int| 0 <= j < from ==> s@[j] != ' ',
    ensures
        match r {
            Some(i) => first_space(s@) == i && from <= i < s@.len(),
            None => first_space(s@) < 0,
        },
{
    let n: usize = s.unicode_len();
    let mut i: usize = from;
    while i < n
        invariant
            from <= i <= n,
            n == s@.len(),
            forall|j: int| 0 <= j < i ==> s@[j] != ' ',
        decreases n - i,
    {
        if s.get_char(i) == ' ' {
            proof {
                assert(is_first_space(s@, i as int));
                let c = first_space(s@);
                assert(is_first_space(s@, c));
                assert(c == i as int) by {
                    if c < i as int {
                        assert(s@[c] != ' ');
                    }
                    if c > i as int {
                        assert(s@[i as int] != ' ');
                    }
                }
            }
            return Some(i);
        }
        i = i + 1;
    }
    proof {
        if exists|p: int| is_first_space(s@, p) {
            let p = choose|p: int| is_first_space(s@, p);
            assert(s@[p] != ' ');
        }
    }
    None
}

/// Strips leading and trailing blanks.
fn trim_str<'a>(s: &'a str) -> (r: &'a str)
    ensures
        r@ == spec_trim(s@),
{
    let n: usize = s.unicode_len();
    let mut lo: usize = 0;
    while lo < n
        invariant
            lo <= n,
            n == s@.len(),
            forall|j: int| 0 <= j < lo ==> is_space_char(s@[j]),
        ensures
            lo <= n,
            forall|j: int| 0 <= j < lo ==> is_space_char(s@[j]),
            lo == n || !is_space_char(s@[lo as int]),
        decreases n - lo,
    {
        let c: char = s.get_char(lo);
        if !(c == ' ' || c == '\t' || c == '\r' || c == '\n') {
            break;
        }
        lo = lo + 1;
    }
    if lo == n {
        proof {
            if exists|i: int| is_first_nonspace(s@, i) {
                let i = choose|i: int| is_first_nonspace(s@, i);
                assert(is_space_char(s@[i]));
            }
            assert(spec_trim(s@) =~= Seq::<char>::empty());
        }
        let r: &str = s.substring_char(0, 0);
        proof {
            assert(r@ =~= spec_trim(s@));
        }
        return r;
    }
    let mut hi: usize = n;
    while hi > lo + 1
        invariant
            lo < hi <= n,
            n == s@.len(),
            forall|j: int| hi <= j < n ==> is_space_char(s@[j]),
        ensures
            lo < hi <= n,
            forall|j: int| hi <= j < n ==> is_space_char(s@[j]),
            hi == lo + 1 || !is_space_char(s@[hi - 1]),
        decreases hi,
    {
        let c: char = s.get_char(hi - 1);
        if !(c == ' ' || c == '\t' || c == '\r' || c == '\n') {
            break;
        }
        hi = hi - 1;
    }
    proof {
        assert(!is_space_char(s@[lo as int]));
        assert(is_first_nonspace(s@, lo as int));
        // The last kept character is not a space: either the loop
        // stopped on it, or it is the first non-space itself.
        if hi == lo + 1 {
            assert(!is_space_char(s@[hi - 1]));
        }
        assert(is_last_nonspace(s@, hi - 1));
        let i = choose|i: int| is_first_nonspace(s@, i);
        assert(i == lo as int) by {
            if i < lo as int {
                assert(is_space_char(s@[i]));
            }
            if i > lo as int {
                assert(is_space_char(s@[lo as int]));
            }
        }
        let k = choose|k: int| is_last_nonspace(s@, k);
        assert(k == hi - 1) by {
            if k < hi - 1 {
                assert(is_space_char(s@[hi - 1]));
            }
            if k > hi - 1 {
                assert(is_space_char(s@[k]));
            }
        }
    }
    let r: &str = s.substring_char(lo, hi);
    proof {
        assert(r@ =~= spec_trim(s@));
    }
    r
}

/// True when the trimmed line opens with the deadline keyword.
fn deadline_prefix(t: &str) -> (r: bool)
    ensures
        r == has_deadline_keyword(t@),
{
    let n: usize = t.unicode_len();
    if n < 9 {
        return false;
    }
    let c0: char = t.get_char(0);
    let c1: char = t.get_char(1);
    let c2: char = t.get_char(2);
    let c3: char = t.get_char(3);
    let c4: char = t.get_char(4);
    let c5: char = t.get_char(5);
    let c6: char = t.get_char(6);
    let c7: char = t.get_char(7);
    let c8: char = t.get_char(8);
    (c0 == 'D' || c0 == 'd') && (c1 == 'E' || c1 == 'e') && (c2 == 'A' || c2 == 'a') && (c3 == 'D'
        || c3 == 'd') && (c4 == 'L' || c4 == 'l') && (c5 == 'I' || c5 == 'i') && (c6 == 'N' || c6
        == 'n') && (c7 == 'E' || c7 == 'e') && c8 == ' '
}

/// Parses one raw schedule line into a task, a deadline, or nothing.
pub fn parse_line(line: &str) -> (r: LineItem)
    ensures
        line_matches(r, classify_line(line@)),
{
    let t: &str = trim_str(line);
    let n: usize = t.unicode_len();
    if n == 0 {
        return LineItem::SkipLine;
    }
    if t.get_char(0) == '#' {
        return LineItem::SkipLine;
    }
    if deadline_prefix(t) {
        let rest: &str = t.substring_char(9, n);
        let ghost restv = t@.subrange(9, t@.len() as int);
        match find_space(rest, 0) {
            None => LineItem::SkipLine,
            Some(sp) => {
                let tok: &str = rest.substring_char(0, sp);
                let desc: &str = rest.substring_char(sp + 1, n - 9);
                proof {
                    assert(tok@ =~= restv.subrange(0, first_space(restv)));
                    assert(desc@ =~= restv.subrange(first_space(restv) + 1, restv.len() as int));
                }
                match parse_date_token(tok) {
                    None => LineItem::SkipLine,
                    Some((y, m, d)) => {
                        let dl = Deadline {
                            year: y,
                            month: m,
                            day: d,
                            description: String::from_str(desc),
                        };
                        LineItem::DeadlineLine(dl)
                    },
                }
            },
        }
    } else {
        match find_space(t, 0) {
            None => LineItem::SkipLine,
            Some(sp) => {
                let ghost rangev = t@.subrange(0, first_space(t@));
                if sp != 11 {
                    proof {
                        assert(rangev.len() != 11);
                    }
                    return LineItem::SkipLine;
                }
                proof {
                    assert(rangev.len() == 11);
                    assert(rangev[5] == t@[5]);
                    assert(rangev.subrange(0, 5) =~= t@.subrange(0, 5));
                    assert(rangev.subrange(6, 11) =~= t@.subrange(6, 11));
                }
                if t.get_char(5) != '-' {
                    return LineItem::SkipLine;
                }
                let start = parse_time_at(t, 0);
                let end = parse_time_at(t, 6);
                match (start, end) {
                    (Some((sh, sm)), Some((eh, em))) => {
                        if sh * 3600 + sm * 60 < eh * 3600 + em * 60 {
                            let desc: &str = t.substring_char(sp + 1, n);
                            proof {
                                assert(desc@ =~= t@.subrange(
                                    first_space(t@) + 1,
                                    t@.len() as int,
                                ));
                            }
                            let task = Task::new(sh, sm, eh, em, String::from_str(desc));
                            LineItem::TaskLine(task)
                        } else {
                            LineItem::SkipLine
                        }
                    },
                    _ => LineItem::SkipLine,
                }
            },
        }
    }
}

/// The task lines among `lines`, classified, in file order.
pub open spec fn task_forms(lines: Seq<Seq<char>>) -> Seq<LineForm>
    decreases lines.len(),
{
    if lines.len() == 0 {
        Seq::empty()
    } else if classify_line(lines.last()) is TaskForm {
        task_forms(lines.drop_last()).push(classify_line(lines.last()))
    } else {
        task_forms(lines.drop_last())
    }
}

/// The deadline lines among `lines`, classified, in file order.
pub open spec fn deadline_forms(lines: Seq<Seq<char>>) -> Seq<LineForm>
    decreases lines.len(),
{
    if lines.len() == 0 {
        Seq::empty()
    } else if classify_line(lines.last()) is DeadlineForm {
        deadline_forms(lines.drop_last()).push(classify_line(lines.last()))
    } else {
        deadline_forms(lines.drop_last())
    }
}

/// Tasks stand in ascending order of start time.
pub open spec fn sorted_by_start(tasks: Seq<Task>) -> bool {
    forall|i: int, j: int|
        0 <= i <= j < tasks.len() ==> tasks[i].start_seconds <= tasks[j].start_seconds
}

/// Loading fails only when no valid task line exists.
#[derive(PartialEq, Eq, Structural, Clone, Copy, Debug)]
pub enum LoadError {
    NoTasks,
}

/// Selection sort on start times; keeps exactly the same tasks.
fn sort_tasks(tasks: Vec<Task>) -> (r: Vec<Task>)
    ensures
        sorted_by_start(r@),
        r@.to_multiset() =~= tasks@.to_multiset(),
        r@.map_values(|t: Task| task_form_of(t)).to_multiset() =~= tasks@.map_values(
            |t: Task| task_form_of(t),
        ).to_multiset(),
    decreases tasks@.len(),
{
    broadcast use vstd::seq_lib::group_to_multiset_ensures;

    let ghost input = tasks@;
    let mut rest: Vec<Task> = tasks;
    let mut out: Vec<Task> = Vec::new();
    while rest.len() > 0
        invariant
            sorted_by_start(out@),
            forall|i: int, j: int|
                0 <= i < out@.len() && 0 <= j < rest@.len() ==> out@[i].start_seconds
                    <= rest@[j].start_seconds,
            out@.to_multiset().add(rest@.to_multiset()) =~= input.to_multiset(),
            out@.map_values(|t: Task| task_form_of(t)).to_multiset().add(
                rest@.map_values(|t: Task| task_form_of(t)).to_multiset(),
            ) =~= input.map_values(|t: Task| task_form_of(t)).to_multiset(),
        decreases rest@.len(),
    {
        let mut mi: usize = 0;
        let mut k: usize = 1;
        while k < rest.len()
            invariant
                mi < k <= rest@.len() || (k <= rest@.len() && mi == 0),
                mi < rest@.len(),
                forall|p: int| 0 <= p < k ==> rest@[mi as int].start_seconds <= rest@[p].start_seconds,
            decreases rest@.len() - k,
        {
            if rest[k].start_seconds < rest[mi].start_seconds {
                mi = k;
            }
            k = k + 1;
        }
        let ghost pre_rest = rest@;
        let ghost pre_out = out@;
        let t: Task = rest.remove(mi);
        proof {
            assert(t == pre_rest[mi as int]);
            assert(rest@ =~= pre_rest.remove(mi as int));
            assert(rest@.map_values(|x: Task| task_form_of(x)) =~= pre_rest.map_values(
                |x: Task| task_form_of(x),
            ).remove(mi as int));
            assert(pre_rest.map_values(|x: Task| task_form_of(x))[mi as int] == task_form_of(t));
        }
        out.push(t);
        proof {
            broadcast use vstd::seq_lib::group_to_multiset_ensures;
            broadcast use vstd::multiset::group_multiset_axioms;

            assert(pre_rest.remove(mi as int).to_multiset() == pre_rest.to_multiset().remove(
                pre_rest[mi as int],
            ));
            assert(out@ =~= pre_out.push(t));
            assert(out@.map_values(|x: Task| task_form_of(x)) =~= pre_out.map_values(
                |x: Task| task_form_of(x),
            ).push(task_form_of(t)));
            assert(pre_rest.contains(t));
            assert(pre_rest.to_multiset().count(t) > 0);
            assert(rest@.to_multiset() =~= pre_rest.to_multiset().remove(t));
            assert(out@.to_multiset() =~= pre_out.to_multiset().insert(t));
            assert(pre_out.to_multiset().insert(t).add(pre_rest.to_multiset().remove(t))
                =~= pre_out.to_multiset().add(pre_rest.to_multiset()));
            assert(out@.to_multiset().add(rest@.to_multiset()) =~= input.to_multiset());
            let ghost mrest = pre_rest.map_values(|x: Task| task_form_of(x));
            let ghost mout = pre_out.map_values(|x: Task| task_form_of(x));
            let ghost tf = task_form_of(t);
            assert(mrest.contains(tf)) by {
                assert(mrest[mi as int] == tf);
            }
            assert(mrest.to_multiset().count(tf) > 0);
            assert(rest@.map_values(|x: Task| task_form_of(x)).to_multiset() =~= mrest.to_multiset().remove(tf)) by {
                assert(rest@.map_values(|x: Task| task_form_of(x)) =~= mrest.remove(mi as int));
                assert(mrest.remove(mi as int).to_multiset() == mrest.to_multiset().remove(
                    mrest[mi as int],
                ));
            }
            assert(out@.map_values(|x: Task| task_form_of(x)).to_multiset() =~= mout.to_multiset().insert(tf)) by {
                assert(out@.map_values(|x: Task| task_form_of(x)) =~= mout.push(tf));
            }
            assert(mout.to_multiset().insert(tf).add(mrest.to_multiset().remove(tf))
                =~= mout.to_multiset().add(mrest.to_multiset()));
            assert(out@.map_values(|x: Task| task_form_of(x)).to_multiset().add(
                rest@.map_values(|x: Task| task_form_of(x)).to_multiset(),
            ) =~= input.map_values(|x: Task| task_form_of(x)).to_multiset());
            assert forall|i: int, j: int|
                0 <= i < out@.len() && 0 <= j < rest@.len() implies out@[i].start_seconds
                <= rest@[j].start_seconds by {
                if j < mi as int {
                    assert(rest@[j] == pre_rest[j]);
                } else {
                    assert(rest@[j] == pre_rest[j + 1]);
                }
            }
        }
    }
    out
}

/// Builds the day schedule from the raw lines: every valid task line
/// becomes a pending task (always with `start < end`), sorted
/// ascending by start time; every valid deadline line becomes a
/// deadline in file order; loading fails exactly when no valid task
/// line exists.
pub fn load_schedule(lines: &Vec<String>) -> (r: Result<Schedule, LoadError>)
    ensures
        match r {
            Ok(s) => {
                &&& task_forms(lines.deep_view()).len() > 0
                &&& forall|i: int|
                    0 <= i < s.tasks@.len() ==> (#[trigger] s.tasks@[i]).wf()
                        && s.tasks@[i].fresh()
                &&& sorted_by_start(s.tasks@)
                &&& s.tasks@.map_values(|t: Task| task_form_of(t)).to_multiset() =~= task_forms(
                    lines.deep_view(),
                ).to_multiset()
                &&& forall|i: int| 0 <= i < s.deadlines@.len() ==> (#[trigger] s.deadlines@[i]).wf()
                &&& s.deadlines@.map_values(|d: Deadline| deadline_form_of(d)) =~= deadline_forms(
                    lines.deep_view(),
                )
            },
            Err(e) => e == LoadError::NoTasks && task_forms(lines.deep_view()).len() == 0,
        },
{
    broadcast use vstd::seq_lib::group_to_multiset_ensures;

    let ghost all = lines.deep_view();
    let mut tasks: Vec<Task> = Vec::new();
    let mut deadlines: Vec<Deadline> = Vec::new();
    let mut i: usize = 0;
    while i < lines.len()
        invariant
            i <= lines@.len(),
            all == lines.deep_view(),
            tasks@.map_values(|t: Task| task_form_of(t)) =~= task_forms(all.subrange(0, i as int)),
            deadlines@.map_values(|d: Deadline| deadline_form_of(d)) =~= deadline_forms(
                all.subrange(0, i as int),
            ),
            forall|p: int| 0 <= p < tasks@.len() ==> (#[trigger] tasks@[p]).wf() && tasks@[p].fresh(),
            forall|p: int| 0 <= p < deadlines@.len() ==> (#[trigger] deadlines@[p]).wf(),
        decreases lines@.len() - i,
    {
        let ghost pre = all.subrange(0, i as int);
        proof {
            assert(all.subrange(0, i as int + 1).drop_last() =~= pre);
            assert(all.subrange(0, i as int + 1).last() == all[i as int]);
            assert(all[i as int] == lines@[i as int]@);
        }
        let line: &String = &lines[i];
        match parse_line(line.as_str()) {
            LineItem::TaskLine(t) => {
                let ghost pt = tasks@;
                tasks.push(t);
                proof {
                    assert(tasks@.map_values(|x: Task| task_form_of(x)) =~= pt.map_values(
                        |x: Task| task_form_of(x),
                    ).push(task_form_of(t)));
                }
            },
            LineItem::DeadlineLine(d) => {
                let ghost pd = deadlines@;
                deadlines.push(d);
                proof {
                    assert(deadlines@.map_values(|x: Deadline| deadline_form_of(x)) =~= pd.map_values(
                        |x: Deadline| deadline_form_of(x),
                    ).push(deadline_form_of(d)));
                }
            },
            LineItem::SkipLine => {},
        }
        i = i + 1;
    }
    proof {
        assert(all.subrange(0, all.len() as int) =~= all);
    }
    if tasks.len() == 0 {
        proof {
            assert(task_forms(all).len() == tasks@.map_values(|t: Task| task_form_of(t)).len());
        }
        return Err(LoadError::NoTasks);
    }
    let ghost parsed = tasks@;
    let sorted: Vec<Task> = sort_tasks(tasks);
    proof {
        assert forall|p: int|
            0 <= p < sorted@.len() implies (#[trigger] sorted@[p]).wf() && sorted@[p].fresh() by {
            assert(sorted@.contains(sorted@[p]));
            assert(sorted@.to_multiset().count(sorted@[p]) > 0);
            assert(parsed.to_multiset().count(sorted@[p]) > 0);
            assert(parsed.contains(sorted@[p]));
            let q = choose|q: int| 0 <= q < parsed.len() && parsed[q] == sorted@[p];
            assert(parsed[q].wf());
        }
        assert(task_forms(all).len() == parsed.map_values(|t: Task| task_form_of(t)).len());
    }
    Ok(Schedule { tasks: sorted, deadlines })
}


} // verus!
