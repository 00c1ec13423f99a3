//! The bullet-journal sibling: entries kept in plain text files, one line
//! per entry. The library owns the line grammar — parsing and rendering —
//! and the task transforms; the shell reads and writes the files.

use vstd::prelude::*;

use std::collections::hash_map::RandomState;
use std::hash::{BuildHasher, Hasher};
use std::time::{SystemTime, UNIX_EPOCH};

use crate::dates::Date;
use crate::listing::contains_val;
use crate::numfmt::{format_hex_pad, lemma_spec_hex_ascii};
use crate::text::{is_prefix_of, str_starts_with, trim, trim_of};

verus! {

/// What kind of entry a line records.
#[derive(Clone, Copy, PartialEq, Eq, Structural, Debug)]
pub enum BulletType {
    Task,
    Event,
    Note,
}

/// The lifecycle of a task entry.
#[derive(Clone, Copy, PartialEq, Eq, Structural, Debug)]
pub enum TaskState {
    Incomplete,
    Complete,
    Migrated,
    Scheduled,
}

/// In which file an entry lives.
#[derive(Clone, Copy, PartialEq, Eq, Structural, Debug)]
pub enum JournalPeriod {
    Daily,
    Weekly,
    Monthly,
}

/// One journal entry.
pub struct BulletEntry {
    pub id: String,
    pub bullet_type: BulletType,
    pub task_state: Option<TaskState>,
    pub content: String,
    pub created_at: i64,
    pub date: Date,
}

/// The one-character marker a line carries for its type and state.
pub open spec fn spec_marker(bt: BulletType, ts: Option<TaskState>) -> char {
    match bt {
        BulletType::Task => match ts {
            Some(TaskState::Complete) => 'x',
            Some(TaskState::Migrated) => '>',
            Some(TaskState::Scheduled) => '<',
            _ => ' ',
        },
        BulletType::Event => 'o',
        BulletType::Note => '-',
    }
}

/// The entry a marker character denotes, if any.
pub open spec fn marker_kind(c: char) -> Option<(BulletType, Option<TaskState>)> {
    if c == ' ' {
        Some((BulletType::Task, Some(TaskState::Incomplete)))
    } else if c == 'x' {
        Some((BulletType::Task, Some(TaskState::Complete)))
    } else if c == '>' {
        Some((BulletType::Task, Some(TaskState::Migrated)))
    } else if c == '<' {
        Some((BulletType::Task, Some(TaskState::Scheduled)))
    } else if c == 'o' {
        Some((BulletType::Event, None))
    } else if c == '-' {
        Some((BulletType::Note, None))
    } else {
        None
    }
}

/// A lower-case hexadecimal digit, the alphabet of entry identifiers.
pub open spec fn is_hex_char(c: char) -> bool {
    ('0' <= c && c <= '9') || ('a' <= c && c <= 'f')
}

/// After the marker header, a line is `text` + `" {id:"` + `id` + `"}"`:
/// this says that cutting the remainder at text length `t` fits that
/// shape, with an identifier of 8 to 12 hex digits ending the line.
pub open spec fn split_ok(rest: Seq<char>, t: int) -> bool {
    &&& 1 <= t
    &&& t + 14 <= rest.len()
    &&& rest[t] == ' '
    &&& rest[t + 1] == '{'
    &&& rest[t + 2] == 'i'
    &&& rest[t + 3] == 'd'
    &&& rest[t + 4] == ':'
    &&& rest.last() == '}'
    &&& rest.len() - 1 - (t + 5) <= 12
    &&& forall|i: int| t + 5 <= i < rest.len() - 1 ==> is_hex_char(#[trigger] rest[i])
}

/// The shortest text that makes the remainder fit the entry shape — the
/// split the grammar takes.
pub open spec fn first_split_from(rest: Seq<char>, t: int) -> Option<int>
    decreases rest.len() + 1 - t,
{
    if t < 1 || t > rest.len() {
        None
    } else if split_ok(rest, t) {
        Some(t)
    } else {
        first_split_from(rest, t + 1)
    }
}

proof fn lemma_first_split_at(rest: Seq<char>, lo: int, t: int)
    requires
        1 <= lo <= t,
        split_ok(rest, t),
        forall|u: int| lo <= u < t ==> !split_ok(rest, u),
    ensures
        first_split_from(rest, lo) == Some(t),
    decreases t - lo,
{
    if lo < t {
        lemma_first_split_at(rest, lo + 1, t);
    }
}

proof fn lemma_first_split_none(rest: Seq<char>, lo: int)
    requires
        1 <= lo,
        forall|u: int| lo <= u ==> !split_ok(rest, u),
    ensures
        (first_split_from(rest, lo) is None),
    decreases rest.len() + 1 - lo,
{
    if lo <= rest.len() {
        lemma_first_split_none(rest, lo + 1);
    }
}

/// How one line parses: the `- [m] ` header, then the shortest-text split
/// of the remainder into content and identifier.
pub open spec fn spec_parse_line(line: Seq<char>) -> Option<(char, Seq<char>, Seq<char>)> {
    if line.len() >= 6 && line[0] == '-' && line[1] == ' ' && line[2] == '[' && line[4] == ']'
        && line[5] == ' ' {
        let rest = line.subrange(6, line.len() as int);
        match first_split_from(rest, 1) {
            Some(t) => Some(
                (line[3], rest.subrange(0, t), rest.subrange(t + 5, rest.len() - 1)),
            ),
            None => None,
        }
    } else {
        None
    }
}

/// What a line contributes to the parsed file: its type, state, content
/// and identifier, or nothing.
pub open spec fn spec_entry_of_line(l: Seq<char>) -> Option<
    (BulletType, Option<TaskState>, Seq<char>, Seq<char>),
> {
    match spec_parse_line(l) {
        Some((m, text, id)) => match marker_kind(m) {
            Some((bt, ts)) => Some((bt, ts, text, id)),
            None => None,
        },
        None => None,
    }
}

/// Parses one journal line. The date and timestamp fill the fields the
/// file does not record.
#[verifier::loop_isolation(false)]
pub fn parse_journal_line(line: &str, date: Date, now: i64) -> (r: Option<BulletEntry>)
    ensures
        match r {
            Some(e) => spec_entry_of_line(line@) matches Some((bt, ts, text, id)) && e.bullet_type
                == bt && e.task_state == ts && e.content@ == text && e.id@ == id && e.created_at
                == now && e.date == date,
            None => (spec_entry_of_line(line@) is None),
        },
{
    let n = line.unicode_len();
    if n < 6 {
        return None;
    }
    if line.get_char(0) != '-' || line.get_char(1) != ' ' || line.get_char(2) != '[' || line.get_char(
        4,
    ) != ']' || line.get_char(5) != ' ' {
        return None;
    }
    let marker = line.get_char(3);
    let ghost rest = line@.subrange(6, n as int);
    let rl = n - 6;
    if rl < 15 || line.get_char(n - 1) != '}' {
        proof {
            assert(rest.len() == rl);
            if rl > 0 {
                assert(rest.last() == line@[n - 1]);
            }
            assert(forall|u: int| 1 <= u ==> !split_ok(rest, u));
            lemma_first_split_none(rest, 1);
        }
        return None;
    }
    proof {
        assert(rest.last() == line@[n - 1]);
    }
    let mut t: usize = 1;
    let mut found: Option<usize> = None;
    while t + 14 <= rl && found.is_none()
        invariant
            1 <= t <= rl - 13,
            rl == rest.len(),
            rl >= 15,
            match found {
                Some(f) => 1 <= f < rl && split_ok(rest, f as int) && forall|u: int|
                    1 <= u < f ==> !split_ok(rest, u),
                None => forall|u: int| 1 <= u < t ==> !split_ok(rest, u),
            },
        decreases rl + 1 - t + (if found.is_none() {
            1int
        } else {
            0int
        }),
    {
        let idlen = rl - 1 - (t + 5);
        let mut ok = idlen <= 12;
        if ok {
            ok = line.get_char(6 + t) == ' ' && line.get_char(6 + t + 1) == '{' && line.get_char(
                6 + t + 2,
            ) == 'i' && line.get_char(6 + t + 3) == 'd' && line.get_char(6 + t + 4) == ':';
        }
        proof {
            assert(rest[t as int] == line@[6 + t]);
            assert(rest[t + 1] == line@[6 + t + 1]);
            assert(rest[t + 2] == line@[6 + t + 2]);
            assert(rest[t + 3] == line@[6 + t + 3]);
            assert(rest[t + 4] == line@[6 + t + 4]);
        }
        if ok {
            let mut h: usize = t + 5;
            let mut allhex = true;
            while h < rl - 1 && allhex
                invariant
                    t + 5 <= h <= rl - 1,
                    rl == rest.len(),
                    allhex ==> forall|i: int| t + 5 <= i < h ==> is_hex_char(#[trigger] rest[i]),
                    !allhex ==> exists|i: int| t + 5 <= i < rl - 1 && !is_hex_char(
                        #[trigger] rest[i],
                    ),
                decreases rl - h + (if allhex {
                    1int
                } else {
                    0int
                }),
            {
                let c = line.get_char(6 + h);
                proof {
                    assert(rest[h as int] == line@[6 + h]);
                }
                let hex = (c >= '0' && c <= '9') || (c >= 'a' && c <= 'f');
                if !hex {
                    allhex = false;
                } else {
                    h = h + 1;
                }
            }
            if allhex {
                proof {
                    assert(split_ok(rest, t as int));
                }
                found = Some(t);
            } else {
                proof {
                    assert(!split_ok(rest, t as int));
                }
                t = t + 1;
            }
        } else {
            proof {
                assert(!split_ok(rest, t as int));
            }
            t = t + 1;
        }
    }
    match found {
        None => {
            proof {
                assert(forall|u: int| 1 <= u ==> !split_ok(rest, u));
                lemma_first_split_none(rest, 1);
            }
            None
        },
        Some(f) => {
            proof {
                lemma_first_split_at(rest, 1, f as int);
            }
            let kind = bullet_kind_of_marker(marker);
            match kind {
                None => None,
                Some((bt, ts)) => {
                    let content = line.substring_char(6, 6 + f).to_owned();
                    let id = line.substring_char(6 + f + 5, n - 1).to_owned();
                    proof {
                        assert(content@ =~= rest.subrange(0, f as int));
                        assert(id@ =~= rest.subrange(f + 5, rest.len() - 1));
                    }
                    Some(
                        BulletEntry {
                            id,
                            bullet_type: bt,
                            task_state: ts,
                            content,
                            created_at: now,
                            date,
                        },
                    )
                },
            }
        },
    }
}

/// Maps a marker character to its entry kind.
fn bullet_kind_of_marker(c: char) -> (r: Option<(BulletType, Option<TaskState>)>)
    ensures
        r == marker_kind(c),
{
    if c == ' ' {
        Some((BulletType::Task, Some(TaskState::Incomplete)))
    } else if c == 'x' {
        Some((BulletType::Task, Some(TaskState::Complete)))
    } else if c == '>' {
        Some((BulletType::Task, Some(TaskState::Migrated)))
    } else if c == '<' {
        Some((BulletType::Task, Some(TaskState::Scheduled)))
    } else if c == 'o' {
        Some((BulletType::Event, None))
    } else if c == '-' {
        Some((BulletType::Note, None))
    } else {
        None
    }
}

/// The position of the first `c`, or the length when it never occurs.
pub open spec fn first_index_of(s: Seq<char>, c: char) -> int
    decreases s.len(),
{
    if s.len() == 0 {
        0
    } else if s[0] == c {
        0
    } else {
        1 + first_index_of(s.drop_first(), c)
    }
}

proof fn lemma_first_index_at(s: Seq<char>, c: char, k: int)
    requires
        0 <= k <= s.len(),
        forall|j: int| 0 <= j < k ==> s[j] != c,
        k == s.len() || s[k] == c,
    ensures
        first_index_of(s, c) == k,
    decreases k,
{
    if k == 0 {
    } else {
        assert(s[0] != c);
        assert(s.drop_first().len() == s.len() - 1);
        assert(forall|j: int| 0 <= j < k - 1 ==> s.drop_first()[j] != c);
        if k < s.len() {
            assert(s.drop_first()[k - 1] == c);
        }
        lemma_first_index_at(s.drop_first(), c, k - 1);
    }
}

/// A line-terminating carriage return is dropped, as `str::lines` drops it.
pub open spec fn strip_cr(l: Seq<char>) -> Seq<char> {
    if l.len() > 0 && l.last() == '\r' {
        l.drop_last()
    } else {
        l
    }
}

/// The lines of a text, as `str::lines` yields them: split at `\n`, a
/// `\r` before the split dropped, no empty final line after a trailing
/// newline.
pub open spec fn spec_lines(s: Seq<char>) -> Seq<Seq<char>>
    decreases s.len(),
{
    if s.len() == 0 {
        Seq::empty()
    } else {
        let i = first_index_of(s, '\n');
        if i < 0 || i >= s.len() {
            seq![s]
        } else {
            seq![strip_cr(s.subrange(0, i))] + spec_lines(s.subrange(i + 1, s.len() as int))
        }
    }
}

/// What a whole file parses to: the entries of its entry lines, in order.
pub open spec fn spec_file_entries(lines: Seq<Seq<char>>) -> Seq<
    (BulletType, Option<TaskState>, Seq<char>, Seq<char>),
>
    decreases lines.len(),
{
    if lines.len() == 0 {
        Seq::empty()
    } else {
        spec_file_entries(lines.drop_last()) + (match spec_entry_of_line(lines.last()) {
            Some(e) => seq![e],
            None => Seq::empty(),
        })
    }
}

/// An entry list matches a parsed file when it carries exactly the
/// recorded fields, in order, stamped with one date and time.
pub open spec fn entries_match(
    entries: Seq<BulletEntry>,
    parsed: Seq<(BulletType, Option<TaskState>, Seq<char>, Seq<char>)>,
    date: Date,
    now: i64,
) -> bool {
    &&& entries.len() == parsed.len()
    &&& forall|k: int|
        0 <= k < entries.len() ==> {
            let e = #[trigger] entries[k];
            &&& e.bullet_type == parsed[k].0
            &&& e.task_state == parsed[k].1
            &&& e.content@ == parsed[k].2
            &&& e.id@ == parsed[k].3
            &&& e.created_at == now
            &&& e.date == date
        }
}

/// Parses a journal file into its entries, skipping lines that do not fit
/// the grammar.
#[verifier::loop_isolation(false)]
pub fn parse_journal_file(content: &str, date: Date, now: i64) -> (r: Vec<BulletEntry>)
    ensures
        entries_match(r@, spec_file_entries(spec_lines(content@)), date, now),
{
    let n = content.unicode_len();
    let mut entries: Vec<BulletEntry> = Vec::new();
    let ghost mut done: Seq<Seq<char>> = Seq::empty();
    let mut pos: usize = 0;
    proof {
        assert(spec_file_entries(done) =~= Seq::<
            (BulletType, Option<TaskState>, Seq<char>, Seq<char>),
        >::empty());
        assert(content@.subrange(0, n as int) =~= content@);
    }
    while pos < n
        invariant
            0 <= pos <= n,
            n == content@.len(),
            pos < n ==> spec_lines(content@) == done + spec_lines(
                content@.subrange(pos as int, n as int),
            ),
            pos == n ==> spec_lines(content@) == done,
            entries_match(entries@, spec_file_entries(done), date, now),
        decreases n - pos,
    {
        let mut j: usize = pos;
        while j < n && content.get_char(j) != '\n'
            invariant
                pos <= j <= n,
                forall|k: int| pos <= k < j ==> content@[k] != '\n',
            decreases n - j,
        {
            j = j + 1;
        }
        let ghost seg = content@.subrange(pos as int, n as int);
        proof {
            assert forall|k: int| 0 <= k < j - pos implies seg[k] != '\n' by {
                assert(seg[k] == content@[pos + k]);
            }
            if j < n {
                assert(seg[j - pos] == content@[j as int]);
            }
            lemma_first_index_at(seg, '\n', j - pos);
        }
        let mut end = j;
        if j < n && end > pos && content.get_char(end - 1) == '\r' {
            end = end - 1;
        }
        let line = content.substring_char(pos, end);
        let ghost lseg = if j < n {
            strip_cr(seg.subrange(0, j - pos))
        } else {
            seg
        };
        proof {
            if j < n {
                assert(seg.subrange(0, j - pos) =~= content@.subrange(pos as int, j as int));
                if end < j {
                    assert(content@.subrange(pos as int, j as int).last() == content@[j - 1]);
                    assert(line@ =~= strip_cr(content@.subrange(pos as int, j as int)));
                } else {
                    assert(line@ =~= content@.subrange(pos as int, j as int));
                    if content@.subrange(pos as int, j as int).len() > 0 {
                        assert(content@.subrange(pos as int, j as int).last() == content@[j - 1]);
                    }
                    assert(line@ =~= strip_cr(content@.subrange(pos as int, j as int)));
                }
            } else {
                assert(line@ =~= seg);
            }
        }
        let parsed = parse_journal_line(line, date, now);
        let ghost pre_done = done;
        proof {
            done = done.push(lseg);
            assert(done.drop_last() =~= pre_done);
            assert(done.last() == lseg);
        }
        match parsed {
            Some(e) => {
                entries.push(e);
            },
            None => {},
        }
        proof {
            assert(entries_match(entries@, spec_file_entries(done), date, now));
        }
        if j < n {
            proof {
                let tail = content@.subrange(pos as int, n as int);
                let i0 = first_index_of(tail, '\n');
                assert(i0 == j - pos);
                assert(tail.subrange(0, i0) =~= content@.subrange(pos as int, j as int));
                assert(tail.subrange(i0 + 1, tail.len() as int) =~= content@.subrange(
                    j + 1,
                    n as int,
                ));
                if j + 1 < n {
                    assert(spec_lines(content@) == done + spec_lines(
                        content@.subrange(j + 1, n as int),
                    ));
                } else {
                    assert(spec_lines(content@.subrange(j + 1, n as int)) =~= Seq::<
                        Seq<char>,
                    >::empty());
                    assert(spec_lines(content@) == done);
                }
            }
            pos = j + 1;
        } else {
            proof {
                let tail = content@.subrange(pos as int, n as int);
                assert(spec_lines(tail) =~= seq![seg]);
                assert(spec_lines(content@) == done);
            }
            pos = n;
        }
    }
    proof {
        if n == 0 {
            assert(spec_lines(content@) =~= done);
        }
    }
    entries
}


/// Renders the marker character of an entry.
fn marker_str(bt: BulletType, ts: Option<TaskState>) -> (r: &'static str)
    ensures
        r@ == seq![spec_marker(bt, ts)],
{
    match bt {
        BulletType::Task => match ts {
            Some(TaskState::Complete) => {
                proof {
                    reveal_strlit("x");
                    assert("x"@ =~= seq!['x']);
                }
                "x"
            },
            Some(TaskState::Migrated) => {
                proof {
                    reveal_strlit(">");
                    assert(">"@ =~= seq!['>']);
                }
                ">"
            },
            Some(TaskState::Scheduled) => {
                proof {
                    reveal_strlit("<");
                    assert("<"@ =~= seq!['<']);
                }
                "<"
            },
            _ => {
                proof {
                    reveal_strlit(" ");
                    assert(" "@ =~= seq![' ']);
                }
                " "
            },
        },
        BulletType::Event => {
            proof {
                reveal_strlit("o");
                assert("o"@ =~= seq!['o']);
            }
            "o"
        },
        BulletType::Note => {
            proof {
                reveal_strlit("-");
                assert("-"@ =~= seq!['-']);
            }
            "-"
        },
    }
}

/// How one entry renders as a line.
pub open spec fn spec_format_entry(e: BulletEntry) -> Seq<char> {
    "- ["@ + seq![spec_marker(e.bullet_type, e.task_state)] + "] "@ + e.content@ + " {id:"@ + e.id@
        + "}\n"@
}

/// Renders one entry as its journal line.
pub fn format_entry(e: &BulletEntry) -> (r: String)
    ensures
        r@ == spec_format_entry(*e),
{
    let mut s = "- [".to_owned();
    s.append(marker_str(e.bullet_type, e.task_state));
    s.append("] ");
    s.append(e.content.as_str());
    s.append(" {id:");
    s.append(e.id.as_str());
    s.append("}\n");
    s
}

/// The entries of one type, in order.
pub open spec fn filter_type(es: Seq<BulletEntry>, t: BulletType) -> Seq<BulletEntry>
    decreases es.len(),
{
    if es.len() == 0 {
        Seq::empty()
    } else {
        filter_type(es.drop_last(), t) + (if es.last().bullet_type == t {
            seq![es.last()]
        } else {
            Seq::<BulletEntry>::empty()
        })
    }
}

/// The rendered lines of a list of entries, concatenated.
pub open spec fn concat_entries(es: Seq<BulletEntry>) -> Seq<char>
    decreases es.len(),
{
    if es.len() == 0 {
        Seq::empty()
    } else {
        concat_entries(es.drop_last()) + spec_format_entry(es.last())
    }
}

/// A titled section: empty when it has no entries, else the title, the
/// entry lines, and a blank line.
pub open spec fn spec_section(es: Seq<BulletEntry>, title: Seq<char>) -> Seq<char> {
    if es.len() == 0 {
        Seq::empty()
    } else {
        title + concat_entries(es) + "\n"@
    }
}

/// The file's first line for its period and date key.
pub open spec fn spec_file_header(period: JournalPeriod, key: Seq<char>) -> Seq<char> {
    (match period {
        JournalPeriod::Daily => "# Daily Log - "@,
        JournalPeriod::Weekly => "# Weekly Log - "@,
        JournalPeriod::Monthly => "# Monthly Log - "@,
    }) + key + "\n\n"@
}

/// How a whole journal file renders: the header, then the task, event and
/// note sections.
pub open spec fn spec_format_file(
    es: Seq<BulletEntry>,
    period: JournalPeriod,
    key: Seq<char>,
) -> Seq<char> {
    spec_file_header(period, key) + spec_section(filter_type(es, BulletType::Task), "## Tasks\n"@)
        + spec_section(filter_type(es, BulletType::Event), "## Events\n"@) + spec_section(
        filter_type(es, BulletType::Note),
        "## Notes\n"@,
    )
}

proof fn lemma_filter_nonempty(es: Seq<BulletEntry>, t: BulletType)
    ensures
        (filter_type(es, t).len() > 0) == (exists|i: int|
            0 <= i < es.len() && (#[trigger] es[i]).bullet_type == t),
    decreases es.len(),
{
    if es.len() > 0 {
        lemma_filter_nonempty(es.drop_last(), t);
        if es.last().bullet_type == t {
            assert(es[es.len() - 1].bullet_type == t);
        } else {
            if exists|i: int| 0 <= i < es.len() && (#[trigger] es[i]).bullet_type == t {
                let i = choose|i: int| 0 <= i < es.len() && (#[trigger] es[i]).bullet_type == t;
                assert(i < es.len() - 1);
                assert(es.drop_last()[i].bullet_type == t);
            }
        }
    }
}

/// Appends one section of the file.
#[verifier::loop_isolation(false)]
fn append_section(out: &mut String, entries: &Vec<BulletEntry>, t: BulletType, title: &str)
    ensures
        final(out)@ == old(out)@ + spec_section(filter_type(entries@, t), title@),
{
    let n = entries.len();
    let mut any = false;
    let mut i: usize = 0;
    while i < n
        invariant
            0 <= i <= n,
            any == exists|k: int| 0 <= k < i && (#[trigger] entries@[k]).bullet_type == t,
        decreases n - i,
    {
        let m = bullet_type_eq(entries[i].bullet_type, t);
        if m {
            any = true;
            proof {
                assert(entries@[i as int].bullet_type == t);
            }
        }
        i = i + 1;
    }
    proof {
        lemma_filter_nonempty(entries@, t);
    }
    if !any {
        proof {
            assert(spec_section(filter_type(entries@, t), title@) =~= Seq::<char>::empty());
            assert(out@ =~= out@ + spec_section(filter_type(entries@, t), title@));
        }
        return ;
    }
    let ghost base = out@;
    out.append(title);
    let mut i2: usize = 0;
    proof {
        assert(entries@.take(0) =~= Seq::<BulletEntry>::empty());
        assert(concat_entries(filter_type(entries@.take(0), t)) =~= Seq::<char>::empty());
        assert(out@ =~= base + title@ + concat_entries(filter_type(entries@.take(0), t)));
    }
    while i2 < n
        invariant
            0 <= i2 <= n,
            out@ == base + title@ + concat_entries(filter_type(entries@.take(i2 as int), t)),
        decreases n - i2,
    {
        let ghost fs = filter_type(entries@.take(i2 as int), t);
        proof {
            assert(entries@.take(i2 + 1).drop_last() =~= entries@.take(i2 as int));
            assert(entries@.take(i2 + 1).last() == entries@[i2 as int]);
        }
        let m = bullet_type_eq(entries[i2].bullet_type, t);
        if m {
            let line = format_entry(&entries[i2]);
            out.append(line.as_str());
            proof {
                let fs2 = filter_type(entries@.take(i2 + 1), t);
                assert(fs2 =~= fs.push(entries@[i2 as int]));
                assert(fs2.drop_last() =~= fs);
                assert(concat_entries(fs2) == concat_entries(fs) + spec_format_entry(
                    entries@[i2 as int],
                ));
            }
        } else {
            proof {
                assert(filter_type(entries@.take(i2 + 1), t) =~= fs);
            }
        }
        i2 = i2 + 1;
    }
    out.append("\n");
    proof {
        assert(entries@.take(n as int) =~= entries@);
        assert(out@ =~= base + spec_section(filter_type(entries@, t), title@));
    }
}

/// Compares entry types.
fn bullet_type_eq(a: BulletType, b: BulletType) -> (r: bool)
    ensures
        r == (a == b),
{
    match (a, b) {
        (BulletType::Task, BulletType::Task) => true,
        (BulletType::Event, BulletType::Event) => true,
        (BulletType::Note, BulletType::Note) => true,
        _ => false,
    }
}

/// Renders a whole journal file: header first, then tasks, events and
/// notes in their own sections.
pub fn format_journal_file(
    entries: &Vec<BulletEntry>,
    period: JournalPeriod,
    date_key: &str,
) -> (r: String)
    ensures
        r@ == spec_format_file(entries@, period, date_key@),
{
    let mut s = match period {
        JournalPeriod::Daily => "# Daily Log - ".to_owned(),
        JournalPeriod::Weekly => "# Weekly Log - ".to_owned(),
        JournalPeriod::Monthly => "# Monthly Log - ".to_owned(),
    };
    s.append(date_key);
    s.append("\n\n");
    append_section(&mut s, entries, BulletType::Task, "## Tasks\n");
    append_section(&mut s, entries, BulletType::Event, "## Events\n");
    append_section(&mut s, entries, BulletType::Note, "## Notes\n");
    s
}

/// Relies on std::time::SystemTime: the nanoseconds since the Unix epoch,
/// or zero if the clock reads before it.
#[verifier::external_body]
fn clock_nanos() -> (r: u128) {
    SystemTime::now().duration_since(UNIX_EPOCH).map(|d| d.as_nanos()).unwrap_or(0)
}

/// Relies on std::collections::hash_map::RandomState: a hasher seeded
/// with per-process random state; nothing is promised of the value.
#[verifier::external_body]
fn random_seed() -> (r: u64) {
    RandomState::new().build_hasher().finish()
}

/// Makes a fresh entry identifier: eight hex digits of the clock and four
/// of a random seed.
pub fn generate_entry_id() -> (r: String)
    ensures
        r@.len() == 12,
        forall|i: int| 0 <= i < 12 ==> is_hex_char(#[trigger] r@[i]),
{
    let t = clock_nanos();
    let seed = random_seed();
    let low: u64 = (t & 0xFFFF_FFFF) as u64;
    let r16: u64 = seed & 0xFFFF;
    let mut s = format_hex_pad(low, 8);
    let s2 = format_hex_pad(r16, 4);
    s.append(s2.as_str());
    proof {
        lemma_spec_hex_ascii(low as int, 8);
        lemma_spec_hex_ascii(r16 as int, 4);
    }
    s
}

/// The preview an index entry keeps: the content, shortened with an
/// ellipsis when it runs long.
pub open spec fn spec_preview(content: Seq<char>) -> Seq<char> {
    if content.len() > 50 {
        content.take(47) + "..."@
    } else {
        content
    }
}

/// Shortens content for an index preview.
pub fn entry_preview(content: &str) -> (r: String)
    ensures
        r@ == spec_preview(content@),
{
    let n = content.unicode_len();
    if n > 50 {
        let mut s = content.substring_char(0, 47).to_owned();
        s.append("...");
        proof {
            assert(content@.subrange(0, 47) =~= content@.take(47));
        }
        s
    } else {
        content.to_owned()
    }
}

/// The task state a fresh entry of a type starts in.
pub open spec fn spec_initial_state(bt: BulletType) -> Option<TaskState> {
    match bt {
        BulletType::Task => Some(TaskState::Incomplete),
        _ => None,
    }
}

/// Appends a new entry with a fresh identifier and reports that
/// identifier.
pub fn add_entry(
    entries: &mut Vec<BulletEntry>,
    content: &str,
    bullet_type: BulletType,
    date: Date,
    now: i64,
) -> (r: String)
    ensures
        final(entries)@.len() == old(entries)@.len() + 1,
        final(entries)@.take(old(entries)@.len() as int) == old(entries)@,
        ({
            let e = final(entries)@.last();
            &&& e.bullet_type == bullet_type
            &&& e.task_state == spec_initial_state(bullet_type)
            &&& e.content@ == content@
            &&& e.date == date
            &&& e.created_at == now
            &&& e.id@ == r@
        }),
        r@.len() == 12,
        forall|i: int| 0 <= i < 12 ==> is_hex_char(#[trigger] r@[i]),
{
    let id = generate_entry_id();
    let task_state = match bullet_type {
        BulletType::Task => Some(TaskState::Incomplete),
        _ => None,
    };
    let e = BulletEntry {
        id: id.clone(),
        bullet_type,
        task_state,
        content: content.to_owned(),
        created_at: now,
        date,
    };
    let ghost pre = entries@;
    entries.push(e);
    proof {
        assert(entries@.take(pre.len() as int) =~= pre);
    }
    id
}

/// An entry the completion command may mark: a task whose identifier
/// starts with the given prefix.
pub open spec fn completes_match(e: BulletEntry, pid: Seq<char>) -> bool {
    is_prefix_of(pid, e.id@) && e.bullet_type == BulletType::Task
}

/// All fields equal but the task state.
pub open spec fn entry_with_state(o: BulletEntry, n: BulletEntry, s: Option<TaskState>) -> bool {
    &&& n.id == o.id
    &&& n.bullet_type == o.bullet_type
    &&& n.task_state == s
    &&& n.content == o.content
    &&& n.created_at == o.created_at
    &&& n.date == o.date
}

/// Marks the first task whose identifier starts with the given prefix as
/// complete; reports its position, or nothing when no entry matches.
#[verifier::loop_isolation(false)]
pub fn complete_task(entries: &mut Vec<BulletEntry>, partial_id: &str) -> (r: Option<usize>)
    ensures
        match r {
            Some(i) => {
                &&& i < old(entries)@.len()
                &&& completes_match(old(entries)@[i as int], partial_id@)
                &&& forall|k: int|
                    0 <= k < i ==> !completes_match(#[trigger] old(entries)@[k], partial_id@)
                &&& final(entries)@.len() == old(entries)@.len()
                &&& entry_with_state(
                    old(entries)@[i as int],
                    final(entries)@[i as int],
                    Some(TaskState::Complete),
                )
                &&& forall|j: int|
                    0 <= j < final(entries)@.len() && j != i ==> final(entries)@[j] == old(
                        entries,
                    )@[j]
            },
            None => *final(entries) == *old(entries) && forall|k: int|
                0 <= k < old(entries)@.len() ==> !completes_match(
                    #[trigger] old(entries)@[k],
                    partial_id@,
                ),
        },
{
    let n = entries.len();
    let mut i: usize = 0;
    while i < n
        invariant
            0 <= i <= n,
            n == entries@.len(),
            *entries == *old(entries),
            forall|k: int| 0 <= k < i ==> !completes_match(#[trigger] entries@[k], partial_id@),
        decreases n - i,
    {
        let is_task = bullet_type_eq(entries[i].bullet_type, BulletType::Task);
        if is_task && str_starts_with(entries[i].id.as_str(), partial_id) {
            let ghost pre = entries@;
            let mut e = entries.remove(i);
            e.task_state = Some(TaskState::Complete);
            entries.insert(i, e);
            proof {
                assert(pre =~= old(entries)@);
                assert(forall|t: int| 0 <= t < i ==> entries@[t] == pre[t]);
                assert(forall|t: int| i < t < entries@.len() ==> entries@[t] == pre[t]);
            }
            return Some(i);
        }
        i = i + 1;
    }
    None
}

/// A task that migration moves forward.
pub open spec fn is_pending(e: BulletEntry) -> bool {
    e.bullet_type == BulletType::Task && e.task_state == Some(TaskState::Incomplete)
}

/// The positions of the pending tasks among a day's entries, in order.
#[verifier::loop_isolation(false)]
pub fn pending_indices(entries: &Vec<BulletEntry>) -> (r: Vec<usize>)
    ensures
        forall|k: int| 0 <= k < r@.len() ==> (#[trigger] r@[k]) < entries@.len() && is_pending(
            entries@[r@[k] as int],
        ),
        forall|p: int, q: int| 0 <= p < q < r@.len() ==> r@[p] < r@[q],
        forall|i: int|
            0 <= i < entries@.len() && is_pending(#[trigger] entries@[i]) ==> contains_val(r@, i),
{
    let n = entries.len();
    let mut r: Vec<usize> = Vec::new();
    let mut i: usize = 0;
    while i < n
        invariant
            0 <= i <= n,
            n == entries@.len(),
            forall|k: int| 0 <= k < r@.len() ==> (#[trigger] r@[k]) < i && is_pending(
                entries@[r@[k] as int],
            ),
            forall|p: int, q: int| 0 <= p < q < r@.len() ==> r@[p] < r@[q],
            forall|v: int| 0 <= v < i && is_pending(#[trigger] entries@[v]) ==> contains_val(r@, v),
        decreases n - i,
    {
        let ghost pre = r@;
        let is_task = bullet_type_eq(entries[i].bullet_type, BulletType::Task);
        let pend = is_task && match entries[i].task_state {
            Some(TaskState::Incomplete) => true,
            _ => false,
        };
        if pend {
            r.push(i);
        }
        proof {
            assert forall|v: int|
                0 <= v < i + 1 && is_pending(#[trigger] entries@[v]) implies contains_val(
                r@,
                v,
            ) by {
                if v == i {
                    assert(r@[r@.len() - 1] == i);
                } else {
                    assert(contains_val(pre, v));
                    let k = choose|k: int| 0 <= k < pre.len() && (#[trigger] pre[k]) == v;
                    assert(r@[k] == v);
                }
            }
        }
        i = i + 1;
    }
    r
}

/// The pending-task positions from `i` on — the tasks a migration moves.
pub open spec fn candidates_from(es: Seq<BulletEntry>, i: int) -> Seq<usize>
    decreases es.len() - i,
{
    if i < 0 || i >= es.len() {
        Seq::empty()
    } else {
        (if is_pending(es[i]) {
            seq![i as usize]
        } else {
            Seq::<usize>::empty()
        }) + candidates_from(es, i + 1)
    }
}

/// Which tasks one migration run moves: every pending task, or only the
/// first when not migrating all.
pub open spec fn migrate_set(es: Seq<BulletEntry>, all: bool) -> Seq<usize> {
    let c = candidates_from(es, 0);
    if all || c.len() <= 1 {
        c
    } else {
        c.take(1)
    }
}

proof fn lemma_candidates_bounds(es: Seq<BulletEntry>, i: int)
    requires
        es.len() <= usize::MAX,
    ensures
        forall|k: int|
            0 <= k < candidates_from(es, i).len() ==> i <= (#[trigger] candidates_from(es, i)[k])
                < es.len() && is_pending(es[candidates_from(es, i)[k] as int]),
        forall|p: int, q: int|
            0 <= p < q < candidates_from(es, i).len() ==> candidates_from(es, i)[p]
                < candidates_from(es, i)[q],
    decreases es.len() - i,
{
    if !(i < 0 || i >= es.len()) {
        lemma_candidates_bounds(es, i + 1);
        let c = candidates_from(es, i);
        let rest = candidates_from(es, i + 1);
        if is_pending(es[i]) {
            assert((i as usize) as int == i);
            assert(c == seq![i as usize] + rest);
            assert forall|k: int| 0 <= k < c.len() implies i <= (#[trigger] c[k]) < es.len()
                && is_pending(es[c[k] as int]) by {
                if k == 0 {
                    assert(c[0] == i as usize);
                } else {
                    assert(c[k] == rest[k - 1]);
                }
            }
            assert forall|p: int, q: int| 0 <= p < q < c.len() implies c[p] < c[q] by {
                assert(c[q] == rest[q - 1]);
                if p == 0 {
                    assert(c[0] == i as usize);
                } else {
                    assert(c[p] == rest[p - 1]);
                }
            }
        } else {
            assert(c == rest);
            assert forall|k: int| 0 <= k < c.len() implies i <= (#[trigger] c[k]) < es.len()
                && is_pending(es[c[k] as int]) by {
                assert(c[k] == rest[k]);
            }
        }
    }
}

/// Moves pending tasks from one day's entries to today's: each moved task
/// reappears at the end of today's list as a fresh incomplete task with a
/// new identifier, and the source entry is marked migrated. Reports the
/// new identifiers, in order.
#[verifier::loop_isolation(false)]
pub fn migrate_tasks(
    from_entries: &mut Vec<BulletEntry>,
    to_entries: &mut Vec<BulletEntry>,
    all: bool,
    today: Date,
    now: i64,
) -> (r: Vec<String>)
    ensures
        ({
            let ms = migrate_set(old(from_entries)@, all);
            let oldn = old(to_entries)@.len() as int;
            &&& r@.len() == ms.len()
            &&& final(from_entries)@.len() == old(from_entries)@.len()
            &&& forall|k: int|
                0 <= k < ms.len() ==> entry_with_state(
                    old(from_entries)@[(#[trigger] ms[k]) as int],
                    final(from_entries)@[ms[k] as int],
                    Some(TaskState::Migrated),
                )
            &&& forall|j: int|
                0 <= j < old(from_entries)@.len() && !contains_val(ms, j)
                    ==> final(from_entries)@[j] == old(from_entries)@[j]
            &&& final(to_entries)@.len() == oldn + ms.len()
            &&& final(to_entries)@.take(oldn) == old(to_entries)@
            &&& forall|k: int|
                0 <= k < ms.len() ==> {
                    let e = #[trigger] final(to_entries)@[oldn + k];
                    &&& e.bullet_type == BulletType::Task
                    &&& e.task_state == Some(TaskState::Incomplete)
                    &&& e.content == old(from_entries)@[ms[k] as int].content
                    &&& e.date == today
                    &&& e.created_at == now
                    &&& e.id == r@[k]
                }
        }),
{
    let ghost orig = from_entries@;
    let n = from_entries.len();
    let mut cands: Vec<usize> = Vec::new();
    let mut i: usize = 0;
    proof {
        assert(cands@ + candidates_from(orig, 0) =~= candidates_from(orig, 0));
    }
    while i < n
        invariant
            0 <= i <= n,
            n == from_entries@.len(),
            *from_entries == *old(from_entries),
            orig == from_entries@,
            candidates_from(orig, 0) == cands@ + candidates_from(orig, i as int),
        decreases n - i,
    {
        let is_task = bullet_type_eq(from_entries[i].bullet_type, BulletType::Task);
        let pend = is_task && match from_entries[i].task_state {
            Some(TaskState::Incomplete) => true,
            _ => false,
        };
        if pend {
            cands.push(i);
        }
        proof {
            if pend {
                assert(candidates_from(orig, i as int) =~= seq![i as usize] + candidates_from(
                    orig,
                    i + 1,
                ));
                assert(candidates_from(orig, 0) =~= cands@ + candidates_from(orig, i + 1));
            } else {
                assert(candidates_from(orig, i as int) =~= candidates_from(orig, i + 1));
            }
        }
        i = i + 1;
    }
    proof {
        assert(candidates_from(orig, n as int) =~= Seq::<usize>::empty());
        assert(cands@ =~= candidates_from(orig, 0));
    }
    if !all && cands.len() > 1 {
        cands.truncate(1);
    }
    proof {
        assert(cands@ =~= migrate_set(orig, all));
        lemma_candidates_bounds(orig, 0);
    }
    let ghost ms = cands@;
    let m = cands.len();
    let ghost oldto = to_entries@;
    let mut ids: Vec<String> = Vec::new();
    let mut k: usize = 0;
    proof {
        assert(to_entries@.take(oldto.len() as int) =~= oldto);
    }
    while k < m
        invariant
            0 <= k <= m,
            m == ms.len(),
            *from_entries == *old(from_entries),
            orig == from_entries@,
            cands@ == ms,
            forall|k2: int| 0 <= k2 < ms.len() ==> (#[trigger] ms[k2]) < orig.len(),
            ids@.len() == k,
            to_entries@.len() == oldto.len() + k,
            to_entries@.take(oldto.len() as int) == oldto,
            forall|k2: int|
                0 <= k2 < k ==> {
                    let e = #[trigger] to_entries@[oldto.len() + k2];
                    &&& e.bullet_type == BulletType::Task
                    &&& e.task_state == Some(TaskState::Incomplete)
                    &&& e.content == orig[ms[k2] as int].content
                    &&& e.date == today
                    &&& e.created_at == now
                    &&& e.id == ids@[k2]
                },
        decreases m - k,
    {
        let idx = cands[k];
        let new_id = generate_entry_id();
        let e = BulletEntry {
            id: new_id.clone(),
            bullet_type: BulletType::Task,
            task_state: Some(TaskState::Incomplete),
            content: from_entries[idx].content.clone(),
            created_at: now,
            date: today,
        };
        let ghost preto = to_entries@;
        to_entries.push(e);
        ids.push(new_id);
        proof {
            assert(to_entries@.take(oldto.len() as int) =~= preto.take(oldto.len() as int));
        }
        k = k + 1;
    }
    let mut k2: usize = 0;
    while k2 < m
        invariant
            0 <= k2 <= m,
            m == ms.len(),
            cands@ == ms,
            from_entries@.len() == orig.len(),
            forall|t: int| 0 <= t < ms.len() ==> (#[trigger] ms[t]) < orig.len(),
            forall|p: int, q: int| 0 <= p < q < ms.len() ==> ms[p] < ms[q],
            forall|t: int|
                0 <= t < k2 ==> entry_with_state(
                    orig[(#[trigger] ms[t]) as int],
                    from_entries@[ms[t] as int],
                    Some(TaskState::Migrated),
                ),
            forall|j: int|
                0 <= j < orig.len() && !contains_val(ms, j) ==> from_entries@[j] == orig[j],
            forall|t: int| k2 <= t < ms.len() ==> from_entries@[(#[trigger] ms[t]) as int]
                == orig[ms[t] as int],
        decreases m - k2,
    {
        let idx = cands[k2];
        let ghost pre = from_entries@;
        let mut e = from_entries.remove(idx);
        e.task_state = Some(TaskState::Migrated);
        from_entries.insert(idx, e);
        proof {
            assert(forall|t: int| 0 <= t < idx ==> from_entries@[t] == pre[t]);
            assert(forall|t: int| idx < t < from_entries@.len() ==> from_entries@[t] == pre[t]);
            assert forall|t: int| k2 + 1 <= t < ms.len() implies from_entries@[(
            #[trigger] ms[t]) as int] == orig[ms[t] as int] by {
                assert(ms[k2 as int] < ms[t]);
            }
        }
        k2 = k2 + 1;
    }
    ids
}

/// One line of the interactive session, interpreted.
pub enum InteractiveCommand {
    AddTask(String),
    AddEvent(String),
    AddNote(String),
    ListToday,
    ListPending,
    Complete(String),
    Quit,
    Nothing,
}

/// How one interactive line is read: the trimmed input's first character
/// selects the command, the trimmed remainder is its argument, a blank
/// argument does nothing, and an unrecognized line adds a task whole.
pub open spec fn interactive_post(line: Seq<char>, r: InteractiveCommand) -> bool {
    let t = trim_of(line);
    if t.len() == 0 {
        r is Nothing
    } else if t[0] == 't' {
        let c = trim_of(t.subrange(1, t.len() as int));
        if c.len() > 0 {
            r matches InteractiveCommand::AddTask(s) && s@ == c
        } else {
            r is Nothing
        }
    } else if t[0] == 'e' {
        let c = trim_of(t.subrange(1, t.len() as int));
        if c.len() > 0 {
            r matches InteractiveCommand::AddEvent(s) && s@ == c
        } else {
            r is Nothing
        }
    } else if t[0] == 'n' {
        let c = trim_of(t.subrange(1, t.len() as int));
        if c.len() > 0 {
            r matches InteractiveCommand::AddNote(s) && s@ == c
        } else {
            r is Nothing
        }
    } else if t[0] == 'l' {
        r is ListToday
    } else if t[0] == 'p' {
        r is ListPending
    } else if t[0] == 'x' {
        let c = trim_of(t.subrange(1, t.len() as int));
        if c.len() > 0 {
            r matches InteractiveCommand::Complete(s) && s@ == c
        } else {
            r is Nothing
        }
    } else if t[0] == 'q' || t[0] == 'Q' {
        r is Quit
    } else {
        r matches InteractiveCommand::AddTask(s) && s@ == t
    }
}

/// Interprets one line of the interactive session; the shell runs the
/// read loop and carries the command out.
pub fn run_interactive(line: &str) -> (r: InteractiveCommand)
    ensures
        interactive_post(line@, r),
{
    let t = trim(line);
    let n = t.unicode_len();
    if n == 0 {
        return InteractiveCommand::Nothing;
    }
    let c0 = t.get_char(0);
    if c0 == 't' || c0 == 'e' || c0 == 'n' || c0 == 'x' {
        let arg = trim(t.substring_char(1, n));
        if arg.unicode_len() == 0 {
            return InteractiveCommand::Nothing;
        }
        let owned = arg.to_owned();
        if c0 == 't' {
            InteractiveCommand::AddTask(owned)
        } else if c0 == 'e' {
            InteractiveCommand::AddEvent(owned)
        } else if c0 == 'n' {
            InteractiveCommand::AddNote(owned)
        } else {
            InteractiveCommand::Complete(owned)
        }
    } else if c0 == 'l' {
        InteractiveCommand::ListToday
    } else if c0 == 'p' {
        InteractiveCommand::ListPending
    } else if c0 == 'q' || c0 == 'Q' {
        InteractiveCommand::Quit
    } else {
        InteractiveCommand::AddTask(t.to_owned())
    }
}

/// Round trip: a well-formed entry's rendered line parses back to exactly
/// its type, state, content and identifier. Well-formed means the marker
/// is faithful to the state (a task without a state would come back as
/// incomplete), the content is non-empty, and the identifier is 8 to 12
/// hex digits.
pub proof fn lemma_entry_line_round_trip(e: BulletEntry)
    requires
        marker_kind(spec_marker(e.bullet_type, e.task_state)) == Some(
            (e.bullet_type, e.task_state),
        ),
        1 <= e.content@.len(),
        8 <= e.id@.len() <= 12,
        forall|i: int| 0 <= i < e.id@.len() ==> is_hex_char(#[trigger] e.id@[i]),
    ensures
        ({
            let line = spec_format_entry(e).drop_last();
            spec_entry_of_line(line) == Some(
                (e.bullet_type, e.task_state, e.content@, e.id@),
            )
        }),
{
    reveal_strlit("- [");
    reveal_strlit("] ");
    reveal_strlit(" {id:");
    reveal_strlit("}\n");
    let m = spec_marker(e.bullet_type, e.task_state);
    let fmt = spec_format_entry(e);
    let c = e.content@;
    let id = e.id@;
    let line = fmt.drop_last();
    let tstar = c.len() as int;
    assert(fmt.len() == 3 + 1 + 2 + c.len() + 5 + id.len() + 2);
    assert(line.len() == fmt.len() - 1);
    assert(line[0] == '-' && line[1] == ' ' && line[2] == '[');
    assert(line[3] == m);
    assert(line[4] == ']' && line[5] == ' ');
    let rest = line.subrange(6, line.len() as int);
    assert(rest =~= c + " {id:"@ + id + seq!['}']);
    assert(rest.len() == c.len() + 5 + id.len() + 1);
    assert(rest[tstar] == ' ');
    assert(rest[tstar + 1] == '{');
    assert(rest[tstar + 2] == 'i');
    assert(rest[tstar + 3] == 'd');
    assert(rest[tstar + 4] == ':');
    assert(rest.last() == '}');
    assert forall|i: int| tstar + 5 <= i < rest.len() - 1 implies is_hex_char(
        #[trigger] rest[i],
    ) by {
        assert(rest[i] == id[i - (tstar + 5)]);
    }
    assert(split_ok(rest, tstar));
    assert forall|u: int| 1 <= u < tstar implies !split_ok(rest, u) by {
        if split_ok(rest, u) {
            if u + 5 <= tstar {
                assert(is_hex_char(rest[tstar]));
                assert(!is_hex_char(' '));
            } else {
                let off = tstar - u;
                assert(1 <= off < 5);
                if off == 1 {
                    assert(rest[u + 1] == '{' && rest[tstar] == ' ');
                } else if off == 2 {
                    assert(rest[u + 2] == 'i' && rest[tstar] == ' ');
                } else if off == 3 {
                    assert(rest[u + 3] == 'd' && rest[tstar] == ' ');
                } else {
                    assert(rest[u + 4] == ':' && rest[tstar] == ' ');
                }
            }
        }
    }
    lemma_first_split_at(rest, 1, tstar);
    assert(rest.subrange(0, tstar) =~= c);
    assert(rest.subrange(tstar + 5, rest.len() - 1) =~= id);
    assert(spec_parse_line(line) == Some((m, c, id)));
}

} // verus!
