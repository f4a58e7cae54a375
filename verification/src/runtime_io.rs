//! Runtime input and output as seen by the virtual machine.

use vstd::prelude::*;
use std::collections::VecDeque;

verus! {

/// What a read of one line of input gives.
#[derive(Debug, Clone, PartialEq, Eq)]
pub enum ReadResult {
    /// A line was read.
    Line(String),
    /// No line is available yet; the caller should pause and retry later.
    WaitingForInput,
    /// Reading failed.
    Error(String),
}

/// The I/O interface of the virtual machine.
pub trait RuntimeIo {
    /// Writes a line followed by a newline.
    fn write_line(&mut self, s: &str);
    /// Writes text without a newline.
    fn write(&mut self, s: &str);
    /// Reads one line of input.
    fn read_line(&mut self) -> ReadResult;
    /// Shows the prompt (once per pending read) and reads one line of input.
    fn read_line_with_prompt(&mut self, prompt: Option<&str>) -> ReadResult;
}

/// The output after a read with a prompt: the prompt is written unless
/// it has already been shown for the pending read.
pub open spec fn prompt_output(out: Seq<char>, shown: bool, prompt: Option<&str>) -> Seq<char> {
    match prompt {
        Some(p) => if shown { out } else { out + p@ },
        None => out,
    }
}

/// Buffer-backed I/O: input lines are queued by the caller and all output is
/// accumulated in a string.
pub struct BufferIo {
    output: String,
    input: VecDeque<String>,
    prompt_shown: bool,
}

impl BufferIo {
    /// Everything written so far and not yet drained.
    pub closed spec fn output_view(&self) -> Seq<char> {
        self.output@
    }

    /// The queued input lines, next one first.
    pub closed spec fn input_view(&self) -> Seq<Seq<char>> {
        self.input@.map_values(|s: String| s@)
    }

    /// Whether the prompt of the pending read has already been written.
    pub closed spec fn prompt_shown_view(&self) -> bool {
        self.prompt_shown
    }

    /// An empty buffer with no queued input.
    pub fn new() -> (r: Self)
        ensures
            r.output_view() == Seq::<char>::empty(),
            r.input_view() == Seq::<Seq<char>>::empty(),
            !r.prompt_shown_view(),
    {
        let r = BufferIo { output: String::new(), input: VecDeque::new(), prompt_shown: false };
        assert(r.input_view() =~= Seq::<Seq<char>>::empty());
        r
    }

    /// Queues one line of input.
    pub fn push_input_line(&mut self, line: String)
        ensures
            final(self).output_view() == old(self).output_view(),
            final(self).input_view() == old(self).input_view().push(line@),
            final(self).prompt_shown_view() == old(self).prompt_shown_view(),
    {
        self.input.push_back(line);
        assert(self.input_view() =~= old(self).input_view().push(line@));
    }

    /// Consumes the buffer and returns its output.
    pub fn take_output(self) -> (s: String)
        ensures
            s@ == self.output_view(),
    {
        self.output
    }

    /// The output written so far.
    pub fn get_output(&self) -> (s: &str)
        ensures
            s@ == self.output_view(),
    {
        self.output.as_str()
    }

    /// Returns the output written so far and empties the output buffer.
    pub fn drain_output(&mut self) -> (s: String)
        ensures
            s@ == old(self).output_view(),
            final(self).output_view() == Seq::<char>::empty(),
            final(self).input_view() == old(self).input_view(),
            final(self).prompt_shown_view() == old(self).prompt_shown_view(),
    {
        let mut out = String::new();
        std::mem::swap(&mut out, &mut self.output);
        out
    }

    /// Empties the output buffer.
    pub fn clear_output(&mut self)
        ensures
            final(self).output_view() == Seq::<char>::empty(),
            final(self).input_view() == old(self).input_view(),
            final(self).prompt_shown_view() == old(self).prompt_shown_view(),
    {
        self.output = String::new();
    }
}

impl Default for BufferIo {
    fn default() -> (r: Self)
        ensures
            r.output_view() == Seq::<char>::empty(),
            r.input_view() == Seq::<Seq<char>>::empty(),
    {
        BufferIo::new()
    }
}

impl RuntimeIo for BufferIo {
    fn write_line(&mut self, s: &str)
        ensures
            final(self).output_view() == old(self).output_view() + s@ + seq!['\n'],
            final(self).input_view() == old(self).input_view(),
            final(self).prompt_shown_view() == old(self).prompt_shown_view(),
    {
        self.output.append(s);
        crate::text::push_char(&mut self.output, '\n');
    }

    fn write(&mut self, s: &str)
        ensures
            final(self).output_view() == old(self).output_view() + s@,
            final(self).input_view() == old(self).input_view(),
            final(self).prompt_shown_view() == old(self).prompt_shown_view(),
    {
        self.output.append(s);
    }

    fn read_line(&mut self) -> (r: ReadResult)
        ensures
            final(self).output_view() == old(self).output_view(),
            final(self).prompt_shown_view() == old(self).prompt_shown_view(),
            old(self).input_view().len() == 0 ==> r == ReadResult::WaitingForInput
                && final(self).input_view() == old(self).input_view(),
            old(self).input_view().len() > 0 ==> (r matches ReadResult::Line(line)
                && line@ == old(self).input_view()[0]
                && final(self).input_view() == old(self).input_view().drop_first()),
    {
        match self.input.pop_front() {
            Some(line) => {
                assert(self.input_view() =~= old(self).input_view().drop_first());
                ReadResult::Line(line)
            },
            None => ReadResult::WaitingForInput,
        }
    }

    fn read_line_with_prompt(&mut self, prompt: Option<&str>) -> (r: ReadResult)
        ensures
            old(self).input_view().len() == 0 ==> r == ReadResult::WaitingForInput
                && final(self).input_view() == old(self).input_view()
                && final(self).prompt_shown_view() == (prompt is Some || old(self).prompt_shown_view())
                && final(self).output_view() == prompt_output(old(self).output_view(), old(self).prompt_shown_view(), prompt),
            old(self).input_view().len() > 0 ==> (r matches ReadResult::Line(line)
                && line@ == old(self).input_view()[0]
                && final(self).input_view() == old(self).input_view().drop_first()
                && !final(self).prompt_shown_view()
                && final(self).output_view() == prompt_output(old(self).output_view(), old(self).prompt_shown_view(), prompt)),
    {
        if let Some(p) = prompt {
            if !self.prompt_shown {
                self.output.append(p);
                self.prompt_shown = true;
            }
        }
        match self.input.pop_front() {
            Some(line) => {
                assert(self.input_view() =~= old(self).input_view().drop_first());
                self.prompt_shown = false;
                ReadResult::Line(line)
            },
            None => ReadResult::WaitingForInput,
        }
    }
}

/// Queued input lines are read back first in, first out.
pub proof fn law_input_first_in_first_out(q: Seq<Seq<char>>, a: Seq<char>, b: Seq<char>)
    ensures
        q.push(a).push(b).len() == q.len() + 2,
        q.len() == 0 ==> q.push(a).push(b)[0] == a && q.push(a).push(b).drop_first()[0] == b,
        q.len() > 0 ==> q.push(a).push(b)[0] == q[0],
{
}

/// A prompt is written once per pending read: asking again while the
/// machine still waits for the same line writes nothing more.
pub proof fn law_prompt_written_once(out: Seq<char>, p: &str)
    ensures
        prompt_output(prompt_output(out, false, Some(p)), true, Some(p)) == out + p@,
{
}

} // verus!
