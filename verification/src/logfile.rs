//! The text side of the local log file: when it is rotated, how a log line
//! is stamped, and the last lines shown in the diagnostics. Opening,
//! appending and renaming the file are the app's.
use vstd::prelude::*;
use crate::text::{chars_of, push_all, string_of};
use crate::dates::{decimal, decimal_chars, padded, padded_chars};

verus! {

/// Past this size in bytes the log is moved aside to `app.log.1`.
pub const MAX_LOG_BYTES: u64 = 1_000_000;

/// Whether a log of `size` bytes is rotated before the next line.
pub fn needs_rotation(size: u64) -> (b: bool)
    ensures
        b == (size > MAX_LOG_BYTES),
{
    size > MAX_LOG_BYTES
}

/// "YYYY-MM-DD HH:MM:SS".
pub open spec fn clock_text(y: int, mo: int, d: int, h: int, mi: int, s: int) -> Seq<char> {
    padded(y, 4) + seq!['-'] + padded(mo, 2) + seq!['-'] + padded(d, 2) + seq![' ']
        + padded(h, 2) + seq![':'] + padded(mi, 2) + seq![':'] + padded(s, 2)
}

/// The stamp of a log line from the local wall clock.
pub fn clock_stamp(year: u16, month: u16, day: u16, hour: u16, minute: u16, second: u16) -> (r: String)
    ensures
        r@ == clock_text(year as int, month as int, day as int, hour as int, minute as int, second as int),
{
    let mut out = padded_chars(year as i64, 4);
    out.push('-');
    push_all(&mut out, &padded_chars(month as i64, 2));
    out.push('-');
    push_all(&mut out, &padded_chars(day as i64, 2));
    out.push(' ');
    push_all(&mut out, &padded_chars(hour as i64, 2));
    out.push(':');
    push_all(&mut out, &padded_chars(minute as i64, 2));
    out.push(':');
    push_all(&mut out, &padded_chars(second as i64, 2));
    string_of(out.as_slice())
}

/// The stamp of a log line where no wall clock is read: "t+" and the
/// seconds since the Unix epoch.
pub fn epoch_stamp(secs: u64) -> (r: String)
    ensures
        r@ == seq!['t', '+'] + decimal(secs as nat),
{
    let mut out: Vec<char> = Vec::new();
    out.push('t');
    out.push('+');
    push_all(&mut out, &decimal_chars(secs));
    string_of(out.as_slice())
}

/// `l` without one '\r' at its end.
pub open spec fn without_cr(l: Seq<char>) -> Seq<char> {
    if l.len() > 0 && l.last() == '\r' {
        l.drop_last()
    } else {
        l
    }
}

/// Reading `s` from the start: the lines ended so far (each by '\n', with a
/// '\r' before it dropped), and the line still open.
pub open spec fn line_state(s: Seq<char>) -> (Seq<Seq<char>>, Seq<char>)
    decreases s.len(),
{
    if s.len() == 0 {
        (Seq::empty(), Seq::empty())
    } else {
        let (done, open) = line_state(s.drop_last());
        if s.last() == '\n' {
            (done.push(without_cr(open)), Seq::empty())
        } else {
            (done, open.push(s.last()))
        }
    }
}

/// The lines of `s` as `str::lines` gives them: split at "\n" or "\r\n";
/// a final line ending adds no empty line.
pub open spec fn text_lines(s: Seq<char>) -> Seq<Seq<char>> {
    let (done, open) = line_state(s);
    if open.len() == 0 {
        done
    } else {
        done.push(open)
    }
}

/// The lines `ls` joined by '\n'.
pub open spec fn joined_lines(ls: Seq<Seq<char>>) -> Seq<char>
    decreases ls.len(),
{
    if ls.len() == 0 {
        Seq::empty()
    } else if ls.len() == 1 {
        ls[0]
    } else {
        joined_lines(ls.drop_last()) + seq!['\n'] + ls.last()
    }
}

/// The last `n` of `ls` (all of them when there are fewer).
pub open spec fn last_n(ls: Seq<Seq<char>>, n: nat) -> Seq<Seq<char>> {
    let k = if n < ls.len() { n } else { ls.len() };
    ls.subrange(ls.len() - k, ls.len() as int)
}

/// The last `n` lines of `text`, joined by '\n'.
pub fn last_lines(text: &str, n: usize) -> (r: String)
    ensures
        r@ == joined_lines(last_n(text_lines(text@), n as nat)),
{
    let cs = chars_of(text);
    let mut done: Vec<Vec<char>> = Vec::new();
    let mut open: Vec<char> = Vec::new();
    let ghost mut lines: Seq<Seq<char>> = Seq::empty();
    let mut i: usize = 0;
    while i < cs.len()
        invariant
            i <= cs@.len(),
            cs@ == text@,
            line_state(cs@.take(i as int)) == (lines, open@),
            done@.len() == lines.len(),
            forall|j: int| 0 <= j < lines.len() ==> #[trigger] done@[j]@ == lines[j],
        decreases cs@.len() - i,
    {
        let c = cs[i];
        assert(cs@.take(i + 1).drop_last() =~= cs@.take(i as int));
        if c == '\n' {
            let mut line = open;
            if line.len() > 0 && line[line.len() - 1] == '\r' {
                line.pop();
            }
            proof {
                lines = lines.push(without_cr(open@));
            }
            done.push(line);
            open = Vec::new();
        } else {
            open.push(c);
        }
        i = i + 1;
    }
    assert(cs@.take(cs@.len() as int) =~= cs@);
    if open.len() > 0 {
        proof {
            lines = lines.push(open@);
        }
        done.push(open);
    }
    assert(lines == text_lines(text@));
    let total = done.len();
    let start = if n < total { total - n } else { 0 };
    let mut out: Vec<char> = Vec::new();
    let mut j = start;
    while j < total
        invariant
            start <= j <= total,
            total == done@.len() == lines.len(),
            forall|k: int| 0 <= k < lines.len() ==> #[trigger] done@[k]@ == lines[k],
            out@ == joined_lines(lines.subrange(start as int, j as int)),
        decreases total - j,
    {
        if j > start {
            out.push('\n');
        }
        push_all(&mut out, &done[j]);
        assert(lines.subrange(start as int, j + 1).drop_last() =~= lines.subrange(start as int, j as int));
        j = j + 1;
    }
    string_of(out.as_slice())
}

} // verus!
