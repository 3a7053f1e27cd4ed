use crate::text::{chars_of, same_chars, string_of_range};
use vstd::prelude::*;

verus! {

/// `c` is white space: a character with the Unicode property `White_Space`.
pub open spec fn is_whitespace(c: char) -> bool {
    ('\u{9}' <= c <= '\u{D}') || c == ' ' || c == '\u{85}' || c == '\u{A0}' || c == '\u{1680}' || (
    '\u{2000}' <= c <= '\u{200A}') || c == '\u{2028}' || c == '\u{2029}' || c == '\u{202F}' || c
        == '\u{205F}' || c == '\u{3000}'
}

/// The length of `s` without the white space that it ends with.
pub open spec fn trimmed_len(s: Seq<char>) -> int
    decreases s.len(),
{
    if s.len() == 0 || !is_whitespace(s.last()) {
        s.len() as int
    } else {
        trimmed_len(s.drop_last())
    }
}

/// The length of the first line of `s`, without the line feed that ends it.
pub open spec fn first_line_len(s: Seq<char>) -> int
    decreases s.len(),
{
    if s.len() == 0 || s[0] == '\n' {
        0
    } else {
        1 + first_line_len(s.skip(1))
    }
}

/// The lines of a text, each without the white space that it ends with. A line feed ends a
/// line; what follows the last line feed is a line unless it is empty.
pub open spec fn text_lines(s: Seq<char>) -> Seq<Seq<char>>
    decreases s.len(),
{
    if s.len() == 0 {
        Seq::empty()
    } else {
        let n = first_line_len(s);
        let line = s.take(n);
        if 0 <= n < s.len() {
            seq![line.take(trimmed_len(line))] + text_lines(s.skip(n + 1))
        } else {
            seq![line.take(trimmed_len(line))]
        }
    }
}

proof fn lemma_first_line_len_is(s: Seq<char>, n: int)
    requires
        0 <= n <= s.len(),
        forall|k: int| 0 <= k < n ==> s[k] != '\n',
        n < s.len() ==> s[n] == '\n',
    ensures
        first_line_len(s) == n,
    decreases s.len(),
{
    if n > 0 {
        let rest = s.skip(1);
        assert(s[0] != '\n');
        assert forall|k: int| 0 <= k < n - 1 implies rest[k] != '\n' by {
            assert(rest[k] == s[k + 1]);
        }
        if n - 1 < rest.len() {
            assert(rest[n - 1] == s[n]);
        }
        lemma_first_line_len_is(rest, n - 1);
    }
}

proof fn lemma_trimmed_len_is(s: Seq<char>, n: int)
    requires
        0 <= n <= s.len(),
        forall|k: int| n <= k < s.len() ==> is_whitespace(s[k]),
        n > 0 ==> !is_whitespace(s[n - 1]),
    ensures
        trimmed_len(s) == n,
    decreases s.len(),
{
    if n < s.len() {
        assert(is_whitespace(s.last()));
        let front = s.drop_last();
        assert forall|k: int| n <= k < front.len() implies is_whitespace(front[k]) by {
            assert(front[k] == s[k]);
        }
        if n > 0 {
            assert(front[n - 1] == s[n - 1]);
        }
        lemma_trimmed_len_is(front, n);
    }
}

/// The length of the whole lines among the first `valid` bytes: up to and with the last
/// line feed among them.
pub open spec fn whole_lines_len(bytes: Seq<u8>, valid: int) -> int
    decreases valid,
{
    if valid <= 0 {
        0
    } else if bytes[valid - 1] == 10 {
        valid
    } else {
        whole_lines_len(bytes, valid - 1)
    }
}

/// The length of the lines of a file that can be read, where its first `valid` bytes are
/// text and the byte behind them is not: the line with that byte is left out, and so is
/// what follows it.
pub fn whole_lines_before(bytes: &[u8], valid: usize) -> (r: usize)
    requires
        valid <= bytes@.len(),
    ensures
        r == whole_lines_len(bytes@, valid as int),
        r <= valid,
{
    let mut end = valid;
    while end > 0
        invariant
            end <= valid,
            valid <= bytes@.len(),
            whole_lines_len(bytes@, valid as int) == whole_lines_len(bytes@, end as int),
        decreases end,
    {
        if bytes[end - 1] == 10 {
            return end;
        }
        end -= 1;
    }
    0
}

/// Whether `c` is white space.
pub fn char_is_whitespace(c: char) -> (r: bool)
    ensures
        r == is_whitespace(c),
{
    ('\u{9}' <= c && c <= '\u{D}') || c == ' ' || c == '\u{85}' || c == '\u{A0}' || c
        == '\u{1680}' || ('\u{2000}' <= c && c <= '\u{200A}') || c == '\u{2028}' || c
        == '\u{2029}' || c == '\u{202F}' || c == '\u{205F}' || c == '\u{3000}'
}

/// The contents of a source file, with the place of each of its lines.
pub struct Lines {
    contents: Vec<char>,
    line_map: Vec<(usize, usize)>,
}

impl Lines {
    #[verifier::type_invariant]
    spec fn well_formed(&self) -> bool {
        forall|i: int|
            0 <= i < self.line_map@.len() ==> (#[trigger] self.line_map@[i]).0 <= self.line_map@[i].1
                <= self.contents@.len()
    }

    /// The lines that are held, in order.
    pub closed spec fn view(&self) -> Seq<Seq<char>> {
        Seq::new(
            self.line_map@.len(),
            |i: int|
                self.contents@.subrange(self.line_map@[i].0 as int, self.line_map@[i].1 as int),
        )
    }

    pub fn empty() -> (r: Lines)
        ensures
            r@ == Seq::<Seq<char>>::empty(),
    {
        let r = Lines { contents: Vec::new(), line_map: Vec::new() };
        proof {
            assert(r@ =~= Seq::<Seq<char>>::empty());
        }
        r
    }

    /// Line number `line_index` of the file, counted from 1.
    pub fn get_line(&self, line_index: u32) -> (r: Option<String>)
        ensures
            match r {
                Some(text) => 1 <= line_index <= self@.len() && text@ == self@[line_index - 1],
                None => line_index == 0 || line_index > self@.len(),
            },
    {
        proof {
            use_type_invariant(self);
        }
        if line_index == 0 || line_index as usize > self.line_map.len() {
            None
        } else {
            let (start, end) = self.line_map[line_index as usize - 1];
            Some(string_of_range(&self.contents, start, end))
        }
    }

    /// The lines of the text of a file.
    pub fn load(text: &str) -> (r: Lines)
        ensures
            r@ == text_lines(text@),
    {
        let contents = chars_of(text);
        let len = contents.len();
        let mut line_map: Vec<(usize, usize)> = Vec::new();
        let mut start: usize = 0;
        let ghost mut done: Seq<Seq<char>> = Seq::empty();
        proof {
            assert(contents@.skip(0) =~= contents@);
            assert(done + text_lines(contents@) =~= text_lines(contents@));
        }
        while start < len
            invariant
                start <= len,
                len == contents@.len(),
                done.len() == line_map@.len(),
                forall|i: int|
                    0 <= i < line_map@.len() ==> (#[trigger] line_map@[i]).0 <= line_map@[i].1
                        <= len && contents@.subrange(
                        line_map@[i].0 as int,
                        line_map@[i].1 as int,
                    ) == done[i],
                done + text_lines(contents@.skip(start as int)) == text_lines(contents@),
            decreases len - start,
        {
            let ghost rest = contents@.skip(start as int);
            let mut end: usize = start;
            while end < len && contents[end] != '\n'
                invariant
                    start <= end <= len,
                    len == contents@.len(),
                    forall|k: int| start <= k < end ==> contents@[k] != '\n',
                decreases len - end,
            {
                end += 1;
            }
            let mut stop: usize = end;
            while stop > start && char_is_whitespace(contents[stop - 1])
                invariant
                    start <= stop <= end <= len,
                    len == contents@.len(),
                    forall|k: int| stop <= k < end ==> is_whitespace(contents@[k]),
                decreases stop,
            {
                stop -= 1;
            }
            proof {
                let n = end - start;
                assert forall|k: int| 0 <= k < n implies rest[k] != '\n' by {
                    assert(rest[k] == contents@[start + k]);
                }
                if n < rest.len() {
                    assert(rest[n] == contents@[end as int]);
                }
                lemma_first_line_len_is(rest, n);
                let line = rest.take(n);
                assert forall|k: int| stop - start <= k < line.len() implies is_whitespace(
                    line[k],
                ) by {
                    assert(line[k] == contents@[start + k]);
                }
                if stop > start {
                    assert(line[stop - start - 1] == contents@[stop - 1]);
                }
                lemma_trimmed_len_is(line, stop - start);
                assert(line.take(stop - start) =~= contents@.subrange(start as int, stop as int));
                if end < len {
                    assert(rest.skip(n + 1) =~= contents@.skip(end + 1));
                    assert(done.push(line.take(stop - start)) + text_lines(
                        contents@.skip(end + 1),
                    ) =~= done + (seq![line.take(stop - start)] + text_lines(
                        contents@.skip(end + 1),
                    )));
                } else {
                    assert(contents@.skip(len as int).len() == 0);
                    assert(done.push(line.take(stop - start)) + text_lines(
                        contents@.skip(len as int),
                    ) =~= done + seq![line.take(stop - start)]);
                }
                done = done.push(line.take(stop - start));
            }
            line_map.push((start, stop));
            if end < len {
                start = end + 1;
            } else {
                start = len;
            }
        }
        let r = Lines { contents, line_map };
        proof {
            assert(contents@.skip(len as int).len() == 0);
            assert(done + Seq::<Seq<char>>::empty() =~= done);
            assert(r@ =~= done);
        }
        r
    }
}

/// One source file that was read.
pub struct CachedFile {
    path: Vec<char>,
    lines: Lines,
}

/// The source files that were read, each with its lines.
pub struct FileLineCache {
    entries: Vec<CachedFile>,
}

/// The first of the files that is named `path`.
pub closed spec fn first_place(entries: Seq<CachedFile>, path: Seq<char>) -> Option<int>
    decreases entries.len(),
{
    if entries.len() == 0 {
        None
    } else {
        match first_place(entries.drop_last(), path) {
            Some(i) => Some(i),
            None => if entries.last().path@ == path {
                Some(entries.len() - 1)
            } else {
                None
            },
        }
    }
}

proof fn lemma_first_place(entries: Seq<CachedFile>, path: Seq<char>)
    ensures
        match first_place(entries, path) {
            Some(i) => 0 <= i < entries.len() && entries[i].path@ == path && forall|k: int|
                0 <= k < i ==> entries[k].path@ != path,
            None => forall|k: int| 0 <= k < entries.len() ==> entries[k].path@ != path,
        },
    decreases entries.len(),
{
    if entries.len() > 0 {
        let front = entries.drop_last();
        lemma_first_place(front, path);
        assert forall|k: int| 0 <= k < front.len() implies front[k] == entries[k] by {}
    }
}

impl FileLineCache {
    /// The lines of the file `path`, where the file is held.
    pub closed spec fn lines_of(&self, path: Seq<char>) -> Option<Seq<Seq<char>>> {
        match first_place(self.entries@, path) {
            Some(i) => Some(self.entries@[i].lines@),
            None => None,
        }
    }

    pub fn new() -> (r: FileLineCache)
        ensures
            forall|path: Seq<char>| r.lines_of(path) is None,
    {
        FileLineCache { entries: Vec::new() }
    }

    fn find(&self, path: &Vec<char>) -> (r: Option<usize>)
        ensures
            match r {
                Some(i) => i < self.entries@.len() && first_place(self.entries@, path@) == Some(
                    i as int,
                ),
                None => first_place(self.entries@, path@) is None,
            },
    {
        proof {
            lemma_first_place(self.entries@, path@);
        }
        let mut i: usize = 0;
        while i < self.entries.len()
            invariant
                i <= self.entries@.len(),
                forall|k: int| 0 <= k < i ==> self.entries@[k].path@ != path@,
            decreases self.entries@.len() - i,
        {
            if same_chars(&self.entries[i].path, path) {
                proof {
                    lemma_first_place(self.entries@, path@);
                }
                return Some(i);
            }
            i += 1;
        }
        None
    }

    /// Whether the file `path` is held.
    pub fn contains(&self, path: &str) -> (r: bool)
        ensures
            r == self.lines_of(path@) is Some,
    {
        let key = chars_of(path);
        self.find(&key).is_some()
    }

    /// Holds the file `path` with the lines of `text` from now on, unless it is held already.
    /// A file that could not be read is held with no lines.
    pub fn insert(&mut self, path: &str, text: Option<&str>)
        ensures
            forall|other: Seq<char>|
                #[trigger] final(self).lines_of(other) == if other == path@ && old(self).lines_of(
                    other,
                ) is None {
                    Some(
                        match text {
                            Some(t) => text_lines(t@),
                            None => Seq::empty(),
                        },
                    )
                } else {
                    old(self).lines_of(other)
                },
    {
        let key = chars_of(path);
        if self.find(&key).is_some() {
            return ;
        }
        let lines = match text {
            Some(t) => Lines::load(t),
            None => Lines::empty(),
        };
        let ghost before = self.entries@;
        self.entries.push(CachedFile { path: key, lines });
        proof {
            assert(self.entries@.drop_last() =~= before);
            assert forall|other: Seq<char>|
                #[trigger] self.lines_of(other) == if other == path@ && old(self).lines_of(other)
                    is None {
                    Some(
                        match text {
                            Some(t) => text_lines(t@),
                            None => Seq::empty(),
                        },
                    )
                } else {
                    old(self).lines_of(other)
                } by {
                lemma_first_place(before, other);
                match first_place(before, other) {
                    Some(i) => {
                        assert(self.entries@[i] == before[i]);
                    },
                    None => {},
                }
            }
        }
    }

    /// Line number `line`, counted from 1, of the file `path`, without the white space that it
    /// ends with. Nothing where the file is not held or has no such line.
    pub fn get_line(&self, path: &str, line: u32) -> (r: Option<String>)
        ensures
            match r {
                Some(text) => self.lines_of(path@) matches Some(lines) && 1 <= line <= lines.len()
                    && text@ == lines[line - 1],
                None => match self.lines_of(path@) {
                    Some(lines) => line == 0 || line > lines.len(),
                    None => true,
                },
            },
    {
        let key = chars_of(path);
        match self.find(&key) {
            Some(i) => self.entries[i].lines.get_line(line),
            None => None,
        }
    }
}

} // verus!
