//! In-memory bindings of the two capabilities the reader needs: an output
//! sink that accepts text and an explicit flush, and an input source that
//! yields one line at a time. A surrounding program that talks to real
//! streams performs its own writes and reads and hands the library plain
//! strings; these types let every behavior of the loop be stated and tested
//! without a terminal.

use vstd::prelude::*;

verus! {

/// An in-memory output sink: it accumulates everything written to it.
pub struct OutputSink {
    text: String,
}

impl View for OutputSink {
    type V = Seq<char>;

    closed spec fn view(&self) -> Seq<char> {
        self.text@
    }
}

impl OutputSink {
    /// An empty sink.
    pub fn new() -> (sink: OutputSink)
        ensures
            sink@ == Seq::<char>::empty(),
    {
        OutputSink { text: String::new() }
    }

    /// Append `s` to the sink.
    pub fn write_text(&mut self, s: &str)
        ensures
            final(self)@ == old(self)@ + s@,
    {
        self.text.append(s);
    }

    /// Make everything written so far visible. For an in-memory sink there is
    /// no buffer to drain, so the content is unchanged; the operation exists
    /// because the sink capability pairs "write" with an explicit "flush".
    pub fn flush(&mut self)
        ensures
            final(self)@ == old(self)@,
    {
    }

    /// Hand the accumulated text to the caller.
    pub fn into_string(self) -> (r: String)
        ensures
            r@ == self@,
    {
        self.text
    }
}

/// An in-memory input source: a fixed sequence of lines handed out one by
/// one. Once every line has been consumed, further reads yield an empty
/// line and leave the source unchanged, the way a blocking line read behaves
/// on a stream that has ended.
pub struct InputSource {
    lines: Vec<String>,
    cursor: usize,
}

impl InputSource {
    /// The lines this source was created with.
    pub closed spec fn lines(&self) -> Seq<Seq<char>> {
        self.lines.deep_view()
    }

    /// How many lines have been consumed so far.
    pub closed spec fn cursor(&self) -> usize {
        self.cursor
    }

    /// The position never lies past the end of the stored lines.
    pub open spec fn wf(&self) -> bool {
        self.cursor() <= self.lines().len()
    }

    /// Whether a line is still available, or the source has ended.
    pub fn has_lines(&self) -> (b: bool)
        ensures
            b == (self.cursor() < self.lines().len()),
    {
        self.cursor < self.lines.len()
    }

    /// A source that will yield `lines` in order.
    pub fn new(lines: Vec<String>) -> (source: InputSource)
        ensures
            source.lines() == lines.deep_view(),
            source.cursor() == 0,
            source.wf(),
    {
        InputSource { lines, cursor: 0 }
    }

    /// Read one line. While lines remain, the next one is returned and the
    /// cursor advances; at end-of-stream the line is empty and the source is
    /// unchanged.
    pub fn read_line(&mut self) -> (line: String)
        ensures
            final(self).lines() == old(self).lines(),
            old(self).wf() ==> final(self).wf(),
            old(self).cursor() < old(self).lines().len() ==> {
                &&& line@ == old(self).lines()[old(self).cursor() as int]
                &&& final(self).cursor() == old(self).cursor() + 1
            },
            old(self).cursor() >= old(self).lines().len() ==> {
                &&& line@ == Seq::<char>::empty()
                &&& final(self).cursor() == old(self).cursor()
            },
    {
        if self.cursor < self.lines.len() {
            let line = self.lines[self.cursor].clone();
            self.cursor = self.cursor + 1;
            line
        } else {
            String::new()
        }
    }
}

} // verus!
