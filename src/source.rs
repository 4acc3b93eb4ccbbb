use vstd::prelude::*;
use crate::number::{nat_text, push_nat_text};
use crate::text::{chars_of, string_of};

verus! {

/// A place in a source text: a line (from 1), a column (the column of the
/// last character consumed, from 1) and a length in characters.
#[derive(Clone, Copy, Debug, PartialEq, Eq, Structural)]
pub struct FilePosition {
    pub lineno: usize,
    pub linepos: usize,
    pub length: usize,
}

/// The position reached after consuming `c` at position `p`.
pub open spec fn advance(p: FilePosition, c: char) -> FilePosition {
    if c == '\n' {
        FilePosition { lineno: (p.lineno + 1) as usize, linepos: 0, length: p.length }
    } else {
        FilePosition { lineno: p.lineno, linepos: (p.linepos + 1) as usize, length: p.length }
    }
}

/// The position after consuming the first `n` characters of `s`, starting
/// at line 1, column 0.
pub open spec fn pos_at(s: Seq<char>, n: nat) -> FilePosition
    decreases n,
{
    if n == 0 || n > s.len() {
        FilePosition { lineno: 1, linepos: 0, length: 0 }
    } else {
        advance(pos_at(s, (n - 1) as nat), s[n - 1])
    }
}

pub proof fn lemma_pos_at_bounded(s: Seq<char>, n: nat)
    requires
        n <= s.len(),
        s.len() < usize::MAX,
    ensures
        1 <= pos_at(s, n).lineno <= n + 1,
        pos_at(s, n).linepos <= n,
        pos_at(s, n).length == 0,
    decreases n,
{
    if n > 0 {
        lemma_pos_at_bounded(s, (n - 1) as nat);
    }
}

impl FilePosition {
    pub fn new(lineno: usize, linepos: usize) -> (r: FilePosition)
        ensures
            r == (FilePosition { lineno, linepos, length: 0 }),
    {
        FilePosition { lineno, linepos, length: 0 }
    }

    pub fn nwl(lineno: usize, linepos: usize, length: usize) -> (r: FilePosition)
        ensures
            r == (FilePosition { lineno, linepos, length }),
    {
        FilePosition { lineno, linepos, length }
    }

    /// Moves past `ch`: a newline starts the next line, any other character
    /// moves one column on.
    pub fn char_inc(&mut self, ch: char)
        requires
            ch == '\n' ==> old(self).lineno < usize::MAX,
            ch != '\n' ==> old(self).linepos < usize::MAX,
        ensures
            *final(self) == advance(*old(self), ch),
    {
        if ch == '\n' {
            self.lineno = self.lineno + 1;
            self.linepos = 0;
        } else {
            self.linepos = self.linepos + 1;
        }
    }
}

/// An error that can be shown against the source text it came from.
pub trait SourceError {
    spec fn spec_position(&self) -> Option<FilePosition>;

    spec fn spec_message(&self) -> Seq<char>;

    spec fn spec_type(&self) -> Seq<char>;

    fn get_position(&self) -> (r: Option<FilePosition>)
        ensures
            r == self.spec_position(),
    ;

    fn get_message(&self) -> (r: String)
        ensures
            r@ == self.spec_message(),
    ;

    fn get_type(&self) -> (r: String)
        ensures
            r@ == self.spec_type(),
    ;
}

/// The index of the first newline at or after `i`.
pub open spec fn next_newline(s: Seq<char>, i: nat) -> Option<nat>
    decreases s.len() - i,
{
    if i >= s.len() {
        None
    } else if s[i as int] == '\n' {
        Some(i)
    } else {
        next_newline(s, i + 1)
    }
}

/// Where line `n` (counted from 1) starts, if the text has that many lines.
pub open spec fn line_start(s: Seq<char>, n: nat) -> Option<nat>
    decreases n,
{
    if n == 0 {
        None
    } else if n == 1 {
        Some(0)
    } else {
        match line_start(s, (n - 1) as nat) {
            Some(i) => match next_newline(s, i) {
                Some(j) => Some(j + 1),
                None => None,
            },
            None => None,
        }
    }
}

/// Line `n` (counted from 1) without its newline.
pub open spec fn line_at(s: Seq<char>, n: nat) -> Option<Seq<char>> {
    match line_start(s, n) {
        Some(i) => Some(
            s.subrange(
                i as int,
                match next_newline(s, i) {
                    Some(j) => j as int,
                    None => s.len() as int,
                },
            ),
        ),
        None => None,
    }
}

/// `c` written `k` times.
pub open spec fn run_of(c: char, k: nat) -> Seq<char> {
    Seq::new(k, |i: int| c)
}

/// An error report: the line of the error with carets under its place
/// (at least one), then the kind and the message.
pub open spec fn error_report(content: Seq<char>, pos: Option<FilePosition>, typ: Seq<char>, msg: Seq<char>) -> Seq<
    char,
> {
    let tail = typ + ": "@ + msg;
    match pos {
        None => tail,
        Some(p) => match line_at(content, p.lineno as nat) {
            None => "SourceError: could not find line in source when formatting error message: "@
                + nat_text(p.lineno as nat),
            Some(line) => "Encountered and error on line "@ + nat_text(p.lineno as nat) + ":\n\n"@ + line
                + "\n"@ + run_of(' ', if p.linepos > 0 { (p.linepos - 1) as nat } else { 0 }) + run_of(
                '^',
                if p.length == 0 { 1 } else { p.length as nat },
            ) + "\n\n"@ + tail,
        },
    }
}

fn push_chars(out: &mut Vec<char>, s: &str)
    ensures
        final(out)@ == old(out)@ + s@,
{
    let v = chars_of(s);
    let mut i: usize = 0;
    while i < v.len()
        invariant
            i <= v.len(),
            v@ == s@,
            out@ == old(out)@ + v@.take(i as int),
        decreases v.len() - i,
    {
        out.push(v[i]);
        i = i + 1;
        assert(out@ =~= old(out)@ + v@.take(i as int));
    }
    assert(v@.take(v.len() as int) =~= v@);
}

fn push_run(out: &mut Vec<char>, c: char, k: usize)
    ensures
        final(out)@ == old(out)@ + run_of(c, k as nat),
{
    let mut i: usize = 0;
    while i < k
        invariant
            i <= k,
            out@ == old(out)@ + run_of(c, i as nat),
        decreases k - i,
    {
        out.push(c);
        i = i + 1;
        assert(out@ =~= old(out)@ + run_of(c, i as nat));
    }
}

fn find_newline(s: &Vec<char>, i: usize) -> (r: Option<usize>)
    requires
        i <= s.len(),
    ensures
        match r {
            Some(j) => next_newline(s@, i as nat) == Some(j as nat) && i <= j < s.len(),
            None => next_newline(s@, i as nat) is None,
        },
{
    let mut k = i;
    while k < s.len()
        invariant
            i <= k <= s.len(),
            next_newline(s@, i as nat) == next_newline(s@, k as nat),
        decreases s.len() - k,
    {
        if s[k] == '\n' {
            return Some(k);
        }
        k = k + 1;
    }
    None
}

fn find_line(s: &Vec<char>, n: usize) -> (r: Option<(usize, usize)>)
    ensures
        match r {
            Some((a, b)) => a <= b <= s.len() && line_at(s@, n as nat) == Some(s@.subrange(a as int, b as int)),
            None => line_at(s@, n as nat) is None,
        },
{
    if n == 0 {
        return None;
    }
    let mut start: usize = 0;
    let mut k: usize = 1;
    while k < n
        invariant
            1 <= k <= n,
            start <= s.len(),
            line_start(s@, k as nat) == Some(start as nat),
        decreases n - k,
    {
        match find_newline(s, start) {
            Some(j) => {
                start = j + 1;
            },
            None => {
                proof {
                    lemma_no_line_after(s@, k as nat, n as nat);
                }
                return None;
            },
        }
        k = k + 1;
    }
    match find_newline(s, start) {
        Some(j) => Some((start, j)),
        None => Some((start, s.len())),
    }
}

proof fn lemma_no_line_after(s: Seq<char>, k: nat, n: nat)
    requires
        1 <= k < n,
        line_start(s, k) matches Some(i) && next_newline(s, i) is None,
    ensures
        line_start(s, n) is None,
    decreases n - k,
{
    if k + 1 < n {
        lemma_none_stays(s, k + 1, n);
    }
}

proof fn lemma_none_stays(s: Seq<char>, k: nat, n: nat)
    requires
        1 <= k <= n,
        line_start(s, k) is None,
    ensures
        line_start(s, n) is None,
    decreases n - k,
{
    if k < n {
        lemma_none_stays(s, k + 1, n);
    }
}

/// A text to interpret, with the name it is known by in messages.
pub struct Source {
    pub filename: String,
    pub content: String,
}

impl Source {
    fn new(filename: String, content: String) -> (r: Source)
        ensures
            r.filename == filename,
            r.content == content,
    {
        Source { filename, content }
    }

    /// A source that came as a string rather than from a file.
    pub fn from_string(content: String) -> (r: Source)
        ensures
            r.filename@ == "__str__"@,
            r.content == content,
    {
        Source::new("__str__".to_owned(), content)
    }

    /// The report of an error against this source: its line with carets
    /// under the place, the kind and the message.
    pub fn format_error<E: SourceError>(&self, err: &E) -> (r: String)
        ensures
            r@ == error_report(self.content@, err.spec_position(), err.spec_type(), err.spec_message()),
    {
        let mut tail: Vec<char> = Vec::new();
        let typ = err.get_type();
        let msg = err.get_message();
        push_chars(&mut tail, typ.as_str());
        push_chars(&mut tail, ": ");
        push_chars(&mut tail, msg.as_str());
        let pos = match err.get_position() {
            Some(pos) => pos,
            None => return string_of(&tail),
        };
        let chars = chars_of(self.content.as_str());
        let mut out: Vec<char> = Vec::new();
        match find_line(&chars, pos.lineno) {
            None => {
                push_chars(&mut out, "SourceError: could not find line in source when formatting error message: ");
                push_nat_text(pos.lineno as u128, &mut out);
            },
            Some((a, b)) => {
                push_chars(&mut out, "Encountered and error on line ");
                push_nat_text(pos.lineno as u128, &mut out);
                push_chars(&mut out, ":\n\n");
                let ghost before = out@;
                let mut i = a;
                while i < b
                    invariant
                        a <= i <= b <= chars.len(),
                        out@ == before + chars@.subrange(a as int, i as int),
                    decreases b - i,
                {
                    out.push(chars[i]);
                    i = i + 1;
                    assert(out@ =~= before + chars@.subrange(a as int, i as int));
                }
                push_chars(&mut out, "\n");
                let indent = if pos.linepos > 0 {
                    pos.linepos - 1
                } else {
                    0
                };
                push_run(&mut out, ' ', indent);
                let width = if pos.length == 0 {
                    1
                } else {
                    pos.length
                };
                push_run(&mut out, '^', width);
                push_chars(&mut out, "\n\n");
                let ghost mid = out@;
                let mut j: usize = 0;
                while j < tail.len()
                    invariant
                        j <= tail.len(),
                        out@ == mid + tail@.take(j as int),
                    decreases tail.len() - j,
                {
                    out.push(tail[j]);
                    j = j + 1;
                    assert(out@ =~= mid + tail@.take(j as int));
                }
                assert(tail@.take(tail.len() as int) =~= tail@);
            },
        }
        proof {
            assert(out@ =~= error_report(self.content@, err.spec_position(), err.spec_type(), err.spec_message()));
        }
        string_of(&out)
    }
}

} // verus!
