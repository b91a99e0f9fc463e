//! The output of a process: the buffer its reader fills and the
//! announcement that carries what was drained from it.

use vstd::prelude::*;
use vstd::string::StringExecFns;
use vstd::string::StrSliceExecFns;

verus! {

/// `String::push`: the character is appended to the end of the string.
pub assume_specification[ String::push ](s: &mut String, c: char)
    ensures
        final(s)@ == old(s)@.push(c),
;

/// The length of `s` without the newlines at its end.
pub open spec fn content_len(s: Seq<char>) -> int
    decreases s.len(),
{
    if s.len() == 0 {
        0
    } else if s.last() == '\n' {
        content_len(s.drop_last())
    } else {
        s.len() as int
    }
}

/// `s` without the newlines at its end.
pub open spec fn trimmed(s: Seq<char>) -> Seq<char> {
    s.take(content_len(s))
}

/// The position of the first newline in `s`, or the length of `s` if it
/// has none.
pub open spec fn line_end(s: Seq<char>) -> int
    decreases s.len(),
{
    if s.len() == 0 {
        0
    } else if s[0] == '\n' {
        0
    } else {
        1 + line_end(s.skip(1))
    }
}

/// A line that was ended by a newline, without the carriage return that
/// stood before the newline, if one did.
pub open spec fn without_cr(line: Seq<char>) -> Seq<char> {
    if line.len() > 0 && line.last() == '\r' {
        line.drop_last()
    } else {
        line
    }
}

/// The lines of `s`. A line ends with a newline, or with a carriage return
/// and a newline, neither of which belongs to it; the last line may end with
/// the text. A carriage return that no newline follows belongs to its line.
pub open spec fn lines_of(s: Seq<char>) -> Seq<Seq<char>>
    decreases s.len(),
{
    if s.len() == 0 {
        Seq::empty()
    } else if 0 <= line_end(s) < s.len() {
        seq![without_cr(s.take(line_end(s)))] + lines_of(s.skip(line_end(s) + 1))
    } else {
        seq![s]
    }
}

/// `line_end` of a text whose first newline is known.
pub proof fn lemma_line_end(s: Seq<char>, k: int)
    requires
        0 <= k <= s.len(),
        forall|j: int| 0 <= j < k ==> s[j] != '\n',
        k < s.len() ==> s[k] == '\n',
    ensures
        line_end(s) == k,
    decreases k,
{
    if k > 0 {
        let rest = s.skip(1);
        assert forall|j: int| 0 <= j < k - 1 implies rest[j] != '\n' by {
            assert(rest[j] == s[j + 1]);
        }
        lemma_line_end(rest, k - 1);
    }
}

/// The mathematical content of a [`ProcessOutput`].
pub struct ProcessOutputView {
    pub entity: u64,
    pub output: Seq<char>,
}

/// Output that a unit's process produced since the previous tick.
#[derive(Debug, Clone, PartialEq, Eq)]
pub struct ProcessOutput {
    pub entity: u64,
    /// The output generated in the last frame.
    ///
    /// Has a trailing newline character.
    output: String,
}

impl View for ProcessOutput {
    type V = ProcessOutputView;

    closed spec fn view(&self) -> ProcessOutputView {
        ProcessOutputView { entity: self.entity, output: self.output@ }
    }
}

impl DeepView for ProcessOutput {
    type V = ProcessOutputView;

    open spec fn deep_view(&self) -> ProcessOutputView {
        self@
    }
}

impl ProcessOutput {
    pub fn new(entity: u64, output: String) -> (r: ProcessOutput)
        ensures
            r@ == (ProcessOutputView { entity, output: output@ }),
    {
        ProcessOutput { entity, output }
    }

    pub fn entity(&self) -> (r: u64)
        ensures
            r == self@.entity,
    {
        self.entity
    }

    /// The output as it was produced, trailing newlines included.
    pub fn output(&self) -> (r: &str)
        ensures
            r@ == self@.output,
    {
        self.output.as_str()
    }

    /// The whole output string generated by the program.
    ///
    /// Does not include the final terminating newline.
    pub fn all(&self) -> (r: &str)
        ensures
            r@ == trimmed(self@.output),
    {
        let text = self.output.as_str();
        let len = text.unicode_len();
        let mut end: usize = 0;
        let mut seen: usize = 0;
        for c in it: text.chars()
            invariant
                it.seq() == text@,
                text@.len() == len,
                seen == it.index(),
                end == content_len(text@.take(seen as int)),
                end <= seen,
        {
            proof {
                assert(text@.take(seen + 1).drop_last() =~= text@.take(seen as int));
            }
            seen = seen + 1;
            if c != '\n' {
                end = seen;
            }
        }
        assert(text@.take(text@.len() as int) =~= text@);
        text.substring_char(0, end)
    }

    /// The lines of the output, as [`ProcessOutput::all`] gives it.
    pub fn lines(&self) -> (r: Vec<String>)
        ensures
            r.deep_view() == lines_of(trimmed(self@.output)),
    {
        let text = self.all();
        let len = text.unicode_len();
        let mut lines: Vec<String> = Vec::new();
        let mut line = String::new();
        // A carriage return was read, and the character after it decides
        // whether it belongs to the line.
        let mut held = false;
        let mut seen: usize = 0;
        let ghost mut start: int = 0;
        assert(text@.skip(0) =~= text@);
        for c in it: text.chars()
            invariant
                it.seq() == text@,
                text@.len() == len,
                seen == it.index(),
                0 <= start <= seen,
                forall|j: int| start <= j < seen ==> text@[j] != '\n',
                lines_of(text@) == lines.deep_view() + lines_of(text@.skip(start)),
                text@.subrange(start, seen as int) == if held {
                    line@.push('\r')
                } else {
                    line@
                },
                !held ==> line@.len() == 0 || line@.last() != '\r',
        {
            let ghost rest = text@.skip(start);
            let ghost read = text@.subrange(start, seen as int);
            proof {
                assert(text@.subrange(start, seen + 1) =~= read.push(c));
            }
            if c == '\n' {
                proof {
                    assert forall|j: int| 0 <= j < seen - start implies rest[j] != '\n' by {
                        assert(rest[j] == text@[start + j]);
                    }
                    lemma_line_end(rest, seen - start);
                    assert(rest.take(seen - start) =~= read);
                    assert(rest.skip(seen - start + 1) =~= text@.skip(seen + 1));
                    assert(without_cr(read) =~= line@);
                }
                lines.push(line);
                proof {
                    start = seen + 1;
                }
                line = String::new();
                held = false;
            } else {
                if held {
                    line.push('\r');
                }
                if c == '\r' {
                    held = true;
                } else {
                    line.push(c);
                    held = false;
                }
            }
            seen = seen + 1;
        }
        let ghost rest = text@.skip(start);
        proof {
            assert forall|j: int| 0 <= j < rest.len() implies rest[j] != '\n' by {
                assert(rest[j] == text@[start + j]);
            }
            lemma_line_end(rest, rest.len() as int);
        }
        if held {
            line.push('\r');
        }
        if !line.as_str().is_empty() {
            lines.push(line);
        } else {
            assert(rest.len() == 0);
        }
        lines
    }

    /// Whether there is no output at all.
    pub fn is_empty(&self) -> (r: bool)
        ensures
            r == (self@.output.len() == 0),
    {
        self.output.as_str().is_empty()
    }
}

/// The lines written to the standard output by a given process, as far as
/// they have not been drained.
#[derive(Debug, Default, Clone, PartialEq, Eq)]
pub struct ProcessOutputBuffer {
    text: String,
}

impl View for ProcessOutputBuffer {
    type V = Seq<char>;

    closed spec fn view(&self) -> Seq<char> {
        self.text@
    }
}

impl ProcessOutputBuffer {
    pub fn new() -> (r: ProcessOutputBuffer)
        ensures
            r@ == Seq::<char>::empty(),
    {
        ProcessOutputBuffer { text: String::new() }
    }

    /// Appends a line, as it was read, to the buffer.
    pub fn push_line(&mut self, line: &str)
        ensures
            final(self)@ == old(self)@ + line@,
    {
        self.text.append(line);
    }

    /// Takes everything out of the buffer: the result is what was appended
    /// since the previous drain, in order, and the buffer is left empty. So
    /// nothing is handed out twice and nothing is lost.
    pub fn drain(&mut self) -> (text: String)
        ensures
            text@ == old(self)@,
            final(self)@ == Seq::<char>::empty(),
    {
        let mut text = String::new();
        std::mem::swap(&mut self.text, &mut text);
        text
    }
}

} // verus!
