//! The prompt/read/parse/retry loop.
//!
//! Each attempt writes the prompt to the output sink and flushes it, reads
//! one line from the input source, trims it, and applies the caller-supplied
//! parsing function to the trimmed text. On success the parsed value is
//! returned; on failure the rendered error followed by a newline is written
//! to the sink and the loop repeats with the same prompt. A source that has
//! ended yields one empty line — the way a blocking line read behaves on a
//! closed stream — and if even that line fails to parse, the reader reports
//! end of input instead of retrying forever.

use vstd::prelude::*;

use crate::stream::InputSource;
use crate::stream::OutputSink;
use crate::text::trim;
use crate::text::trim_spec;

verus! {

/// The unrecoverable condition of the retry loop: the input source ended and
/// no line of it — not even the empty line the ended source yields — parsed.
#[derive(Debug, PartialEq, Eq, Structural)]
pub struct EndOfInput;

/// The line the reader sees on its attempt number `k` (counting from zero)
/// when it starts at position `cursor` of `lines`: lines are consumed in
/// order, and every attempt past the last line reads an empty line.
pub open spec fn line_at(lines: Seq<Seq<char>>, cursor: int, k: int) -> Seq<char> {
    if cursor + k < lines.len() {
        lines[cursor + k]
    } else {
        Seq::empty()
    }
}

/// The source position after `n` reads starting at position `cursor` of a
/// source of `len` lines: the position advances once per read while lines
/// remain and no further once they are exhausted.
pub open spec fn cursor_after(cursor: int, n: int, len: int) -> int {
    if cursor + n <= len {
        cursor + n
    } else {
        len
    }
}

/// Everything the failed attempts write to the sink: for each failure in
/// order, the prompt that opened the attempt, then the rendered error
/// followed by a newline.
pub open spec fn failure_log(msg: Seq<char>, errs: Seq<Seq<char>>) -> Seq<char>
    decreases errs.len(),
{
    if errs.len() == 0 {
        Seq::empty()
    } else {
        failure_log(msg, errs.drop_last()) + msg + errs.last() + seq!['\n']
    }
}

/// The parsing function, applied to a string whose characters are `t`, can
/// return the value `v`.
pub open spec fn accepts<T, F: Fn(&str) -> Result<T, String>>(
    parse: F,
    t: Seq<char>,
    v: T,
) -> bool {
    exists|s: &str| s@ == t && call_ensures(parse, (s,), Ok::<T, String>(v))
}

/// The parsing function, applied to a string whose characters are `t`, can
/// fail with an error rendered as `e`.
pub open spec fn rejects<T, F: Fn(&str) -> Result<T, String>>(
    parse: F,
    t: Seq<char>,
    e: Seq<char>,
) -> bool {
    exists|s: &str, m: String|
        s@ == t && m@ == e && call_ensures(parse, (s,), Err::<T, String>(m))
}

/// A successful run of the reader, seen from outside. Starting with sink
/// content `w0` and source position `c0`, the attempts consumed one line
/// each; the first `errs.len()` attempts were parse failures whose rendered
/// errors are `errs`, each written after its prompt; the attempt after them
/// parsed its trimmed line as `value`, and its prompt is the last thing
/// written. `w1` and `c1` are the sink content and source position at the
/// end.
pub open spec fn read_outcome<T, F: Fn(&str) -> Result<T, String>>(
    parse: F,
    msg: Seq<char>,
    lines: Seq<Seq<char>>,
    c0: int,
    w0: Seq<char>,
    w1: Seq<char>,
    c1: int,
    errs: Seq<Seq<char>>,
    value: T,
) -> bool {
    let n = errs.len() as int;
    &&& w1 == w0 + failure_log(msg, errs) + msg
    &&& c1 == cursor_after(c0, n + 1, lines.len() as int)
    &&& forall|k: int| 0 <= k < n ==> rejects(parse, trim_spec(line_at(lines, c0, k)), errs[k])
    &&& accepts(parse, trim_spec(line_at(lines, c0, n)), value)
}

/// A run of the reader that ended with the input exhausted: every remaining
/// line failed to parse, and so did the empty line the ended source yields,
/// whose rendered error closes the sink content.
pub open spec fn lines_exhausted<T, F: Fn(&str) -> Result<T, String>>(
    parse: F,
    msg: Seq<char>,
    lines: Seq<Seq<char>>,
    c0: int,
    w0: Seq<char>,
    w1: Seq<char>,
    c1: int,
    errs: Seq<Seq<char>>,
) -> bool {
    let n = errs.len() as int;
    &&& n == lines.len() - c0 + 1
    &&& w1 == w0 + failure_log(msg, errs)
    &&& c1 == lines.len()
    &&& forall|k: int| 0 <= k < n ==> rejects(parse, trim_spec(line_at(lines, c0, k)), errs[k])
}

/// The reader, run with prompt `msg` against a source holding `lines` at
/// position `c0` and a sink holding `w0`, can return `value` leaving the sink
/// at `w1` and the source at `c1`: some sequence of rendered parse failures
/// accounts for everything written and every line consumed in between.
pub open spec fn reads_to<T, F: Fn(&str) -> Result<T, String>>(
    parse: F,
    msg: Seq<char>,
    lines: Seq<Seq<char>>,
    c0: int,
    w0: Seq<char>,
    w1: Seq<char>,
    c1: int,
    value: T,
) -> bool {
    exists|errs: Seq<Seq<char>>|
        #[trigger] read_outcome(parse, msg, lines, c0, w0, w1, c1, errs, value)
}

/// The reader, run as in [`reads_to`], can stop with end of input, leaving
/// the sink at `w1` and the source at `c1`: some sequence of rendered parse
/// failures, one per remaining line plus one for the empty line at the end,
/// accounts for everything written.
pub open spec fn exhausts<T, F: Fn(&str) -> Result<T, String>>(
    parse: F,
    msg: Seq<char>,
    lines: Seq<Seq<char>>,
    c0: int,
    w0: Seq<char>,
    w1: Seq<char>,
    c1: int,
) -> bool {
    exists|errs: Seq<Seq<char>>|
        #[trigger] lines_exhausted::<T, F>(parse, msg, lines, c0, w0, w1, c1, errs)
}

/// Law: surrounding whitespace on a raw line never changes what an attempt
/// can parse it to. Padding a line with any amount of whitespace on either
/// side leaves [`accepts`] and [`rejects`] — the relations the reader's
/// contract is stated over — unchanged.
pub proof fn lemma_padding_does_not_change_parse<T, F: Fn(&str) -> Result<T, String>>(
    parse: F,
    pl: Seq<char>,
    line: Seq<char>,
    pr: Seq<char>,
)
    requires
        crate::text::all_blank(pl),
        crate::text::all_blank(pr),
    ensures
        forall|v: T|
            accepts(parse, trim_spec(pl + line + pr), v) == accepts(parse, trim_spec(line), v),
        forall|e: Seq<char>|
            rejects(parse, trim_spec(pl + line + pr), e) == rejects(parse, trim_spec(line), e),
{
    crate::text::lemma_trim_ignores_padding(pl, line, pr);
}

/// Law: when the parsing function deterministically rejects the first `k`
/// remaining trimmed lines — rendering their errors as `msgs` — and
/// deterministically accepts the trimmed line after them as `v`, the reader
/// returns exactly `v`, the sink gains exactly the prompt and rendered error
/// (with its newline) of each failed attempt followed by the final prompt,
/// and exactly `k + 1` lines are consumed.
pub proof fn lemma_retry_until_valid<T, F: Fn(&str) -> Result<T, String>>(
    parse: F,
    msg: Seq<char>,
    lines: Seq<Seq<char>>,
    c0: int,
    w0: Seq<char>,
    w1: Seq<char>,
    c1: int,
    value: T,
    k: int,
    msgs: Seq<Seq<char>>,
    v: T,
)
    requires
        reads_to(parse, msg, lines, c0, w0, w1, c1, value),
        0 <= c0,
        0 <= k,
        c0 + k < lines.len(),
        msgs.len() == k,
        forall|j: int, s: &str, ret: Result<T, String>|
            #![trigger call_ensures(parse, (s,), ret), trim_spec(lines[c0 + j])]
            0 <= j < k && s@ == trim_spec(lines[c0 + j]) && call_ensures(parse, (s,), ret)
                ==> ret is Err && ret->Err_0@ == msgs[j],
        forall|s: &str, ret: Result<T, String>|
            s@ == trim_spec(lines[c0 + k]) && #[trigger] call_ensures(parse, (s,), ret)
                ==> ret == Ok::<T, String>(v),
    ensures
        value == v,
        w1 == w0 + failure_log(msg, msgs) + msg,
        c1 == c0 + k + 1,
{
    let errs = choose|errs: Seq<Seq<char>>|
        #[trigger] read_outcome(parse, msg, lines, c0, w0, w1, c1, errs, value);
    assert(read_outcome(parse, msg, lines, c0, w0, w1, c1, errs, value));
    let n = errs.len() as int;
    if n < k {
        assert(line_at(lines, c0, n) == lines[c0 + n]);
        assert(accepts(parse, trim_spec(line_at(lines, c0, n)), value));
        let s = choose|s: &str|
            s@ == trim_spec(line_at(lines, c0, n)) && call_ensures(
                parse,
                (s,),
                Ok::<T, String>(value),
            );
        assert(call_ensures(parse, (s,), Ok::<T, String>(value)));
        assert(trim_spec(lines[c0 + n]) == trim_spec(line_at(lines, c0, n)));
        assert(false);
    }
    if n > k {
        assert(rejects(parse, trim_spec(line_at(lines, c0, k)), errs[k]));
        assert(line_at(lines, c0, k) == lines[c0 + k]);
        let (s, m) = choose|s: &str, m: String|
            s@ == trim_spec(line_at(lines, c0, k)) && m@ == errs[k] && call_ensures(
                parse,
                (s,),
                Err::<T, String>(m),
            );
        assert(call_ensures(parse, (s,), Err::<T, String>(m)));
        assert(false);
    }
    assert(n == k);
    assert forall|j: int| 0 <= j < k implies errs[j] == msgs[j] by {
        assert(rejects(parse, trim_spec(line_at(lines, c0, j)), errs[j]));
        assert(line_at(lines, c0, j) == lines[c0 + j]);
        let (s, m) = choose|s: &str, m: String|
            s@ == trim_spec(line_at(lines, c0, j)) && m@ == errs[j] && call_ensures(
                parse,
                (s,),
                Err::<T, String>(m),
            );
        assert(call_ensures(parse, (s,), Err::<T, String>(m)));
        assert(trim_spec(lines[c0 + j]) == trim_spec(line_at(lines, c0, j)));
        assert(m@ == msgs[j]);
    }
    assert(errs =~= msgs);
    assert(accepts(parse, trim_spec(line_at(lines, c0, k)), value));
    let s = choose|s: &str|
        s@ == trim_spec(line_at(lines, c0, k)) && call_ensures(parse, (s,), Ok::<T, String>(value));
    assert(call_ensures(parse, (s,), Ok::<T, String>(value)));
    assert(line_at(lines, c0, k) == lines[c0 + k]);
}

/// Law: when the parsing function deterministically accepts the trimmed next
/// line as `v`, the reader returns exactly `v`, the sink gains exactly the
/// prompt and nothing else, and exactly one line is consumed.
pub proof fn lemma_single_valid_line<T, F: Fn(&str) -> Result<T, String>>(
    parse: F,
    msg: Seq<char>,
    lines: Seq<Seq<char>>,
    c0: int,
    w0: Seq<char>,
    w1: Seq<char>,
    c1: int,
    value: T,
    v: T,
)
    requires
        reads_to(parse, msg, lines, c0, w0, w1, c1, value),
        0 <= c0 < lines.len(),
        forall|s: &str, ret: Result<T, String>|
            s@ == trim_spec(lines[c0]) && #[trigger] call_ensures(parse, (s,), ret)
                ==> ret == Ok::<T, String>(v),
    ensures
        value == v,
        w1 == w0 + msg,
        c1 == c0 + 1,
{
    lemma_retry_until_valid(
        parse,
        msg,
        lines,
        c0,
        w0,
        w1,
        c1,
        value,
        0,
        Seq::empty(),
        v,
    );
    assert(w0 + failure_log(msg, Seq::empty()) + msg =~= w0 + msg);
}

/// Show the prompt: write it to the sink verbatim, with no added newline,
/// and flush so it is visible before the blocking read that follows.
pub fn prompt(writer: &mut OutputSink, msg: &str)
    ensures
        final(writer)@ == old(writer)@ + msg@,
{
    writer.write_text(msg);
    writer.flush();
}

/// Read one line of text from the source, blocking until a line is
/// available; at end-of-stream the line is empty.
pub fn next_line(reader: &mut InputSource) -> (line: String)
    ensures
        final(reader).lines() == old(reader).lines(),
        old(reader).wf() ==> final(reader).wf(),
        old(reader).cursor() < old(reader).lines().len() ==> {
            &&& line@ == old(reader).lines()[old(reader).cursor() as int]
            &&& final(reader).cursor() == old(reader).cursor() + 1
        },
        old(reader).cursor() >= old(reader).lines().len() ==> {
            &&& line@ == Seq::<char>::empty()
            &&& final(reader).cursor() == old(reader).cursor()
        },
{
    reader.read_line()
}

/// The decision step of one attempt: trim the raw line and apply the parsing
/// function to the trimmed text. A program that drives the retry loop over
/// its own streams calls this on each line it reads, and on failure writes
/// the error out itself.
pub fn parse_trimmed<T, F: Fn(&str) -> Result<T, String>>(line: &str, parse: F) -> (r: Result<
    T,
    String,
>)
    requires
        forall|s: &str| #[trigger] call_requires(parse, (s,)),
    ensures
        match r {
            Ok(v) => accepts(parse, trim_spec(line@), v),
            Err(e) => rejects(parse, trim_spec(line@), e@),
        },
{
    let trimmed = trim(line);
    parse(trimmed)
}

/// Prompt with `msg`, read a line, trim it, and parse it with `parse`,
/// repeating on failure (with the error rendered to the sink) until a line
/// parses; the parsed value is returned. The reader returns only a value the
/// parsing function produced. Once the source has ended, one final attempt is
/// made on the empty line an ended source yields; if it too fails, the
/// reader stops with `EndOfInput` rather than retrying forever.
#[verifier::rlimit(50)]
#[verifier::loop_isolation(false)]
pub fn input_from<T, F: Fn(&str) -> Result<T, String>>(
    msg: &str,
    writer: &mut OutputSink,
    reader: &mut InputSource,
    parse: F,
) -> (value: Result<T, EndOfInput>)
    requires
        old(reader).wf(),
        forall|s: &str| #[trigger] call_requires(parse, (s,)),
    ensures
        final(reader).lines() == old(reader).lines(),
        final(reader).wf(),
        value is Ok ==> reads_to(
            parse,
            msg@,
            old(reader).lines(),
            old(reader).cursor() as int,
            old(writer)@,
            final(writer)@,
            final(reader).cursor() as int,
            value->Ok_0,
        ),
        value is Err ==> exhausts::<T, F>(
            parse,
            msg@,
            old(reader).lines(),
            old(reader).cursor() as int,
            old(writer)@,
            final(writer)@,
            final(reader).cursor() as int,
        ),
{
    let ghost w0 = writer@;
    let ghost lines = reader.lines();
    let ghost c0 = reader.cursor() as int;
    let ghost mut errs: Seq<Seq<char>> = Seq::empty();
    proof {
        assert(w0 + failure_log(msg@, errs) =~= w0);
    }
    loop
        invariant
            forall|s: &str| #[trigger] call_requires(parse, (s,)),
            reader.wf(),
            reader.lines() == lines,
            lines == old(reader).lines(),
            c0 == old(reader).cursor() as int,
            w0 == old(writer)@,
            reader.cursor() as int == c0 + errs.len(),
            errs.len() <= lines.len() - c0,
            writer@ == w0 + failure_log(msg@, errs),
            forall|k: int|
                0 <= k < errs.len() ==> rejects(parse, trim_spec(line_at(lines, c0, k)), errs[k]),
        decreases lines.len() as int - reader.cursor() as int,
    {
        prompt(writer, msg);
        let at_end = !reader.has_lines();
        let line = next_line(reader);
        let ghost n = errs.len() as int;
        proof {
            assert(line@ == line_at(lines, c0, n));
        }
        let trimmed = trim(line.as_str());
        match parse(trimmed) {
            Ok(v) => {
                proof {
                    assert(accepts(parse, trim_spec(line_at(lines, c0, n)), v));
                    assert(writer@ =~= w0 + failure_log(msg@, errs) + msg@);
                    assert(read_outcome(
                        parse,
                        msg@,
                        lines,
                        c0,
                        w0,
                        writer@,
                        reader.cursor() as int,
                        errs,
                        v,
                    ));
                    assert(reads_to(
                        parse,
                        msg@,
                        lines,
                        c0,
                        w0,
                        writer@,
                        reader.cursor() as int,
                        v,
                    ));
                }
                return Ok(v);
            },
            Err(e) => {
                writer.write_text(e.as_str());
                writer.write_text("\n");
                proof {
                    reveal_strlit("\n");
                    assert("\n"@ =~= seq!['\n']);
                    assert(rejects(parse, trim_spec(line_at(lines, c0, n)), e@));
                    let prev = errs;
                    errs = errs.push(e@);
                    assert(errs.drop_last() =~= prev);
                    assert(writer@ =~= w0 + failure_log(msg@, errs));
                }
                if at_end {
                    proof {
                        assert(lines_exhausted(
                            parse,
                            msg@,
                            lines,
                            c0,
                            w0,
                            writer@,
                            reader.cursor() as int,
                            errs,
                        ));
                        assert(exhausts::<T, F>(
                            parse,
                            msg@,
                            lines,
                            c0,
                            w0,
                            writer@,
                            reader.cursor() as int,
                        ));
                    }
                    return Err(EndOfInput);
                }
            },
        }
    }
}

} // verus!

