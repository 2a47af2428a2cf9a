//! The command framing protocol.
//!
//! A command is written to the shell as one line, followed by a line that
//! echoes a fixed marker. The shell runs the lines in order, so the marker
//! comes back only after the command's own output. The reader gathers lines
//! until one holds the marker, removes the marker and trims the rest.
//!
//! A command whose own output holds the marker ends its response early and
//! leaves the rest of its output to be read as the next response: the marker
//! is matched as plain text and nothing tells the two apart.
use vstd::prelude::*;

use crate::text::{
    contains, contains_text, is_white_space, occurs_at, remove_all, remove_all_text, trim,
    trim_end, trimmed,
};

verus! {

/// The marker that the shell echoes after each command's output.
pub const END_OF_COMMAND: &'static str = "~end-of-command~";

/// The marker, as characters.
pub open spec fn sentinel() -> Seq<char> {
    END_OF_COMMAND@
}

/// What is written to the shell to run `command`: the command on one line,
/// then a line that echoes the marker.
pub open spec fn request(command: Seq<char>) -> Seq<char> {
    command + seq!['\n'] + "echo "@ + sentinel() + seq!['\n']
}

/// The line that the shell prints for the echo of the marker.
pub open spec fn sentinel_line() -> Seq<char> {
    sentinel() + seq!['\n']
}

/// The response carried by the text read up to and including the marker:
/// the text with every marker removed, then trimmed.
pub open spec fn response_text(raw: Seq<char>) -> Seq<char> {
    trimmed(remove_all(raw, sentinel()))
}

/// Whether a line read from the shell ends the current response.
pub open spec fn ends_response(line: Seq<char>) -> bool {
    contains(line, sentinel())
}

/// The lines joined in order.
pub open spec fn concat_lines(lines: Seq<Seq<char>>) -> Seq<char>
    decreases lines.len(),
{
    if lines.len() == 0 {
        Seq::empty()
    } else {
        concat_lines(lines.drop_last()) + lines.last()
    }
}

/// The number of lines that make up the first response of a stream of
/// lines: those up to and including the first that holds the marker; zero
/// when no line holds it yet.
pub open spec fn frame_len(lines: Seq<Seq<char>>) -> nat
    decreases lines.len(),
{
    if lines.len() == 0 {
        0
    } else if ends_response(lines[0]) {
        1
    } else if frame_len(lines.drop_first()) == 0 {
        0
    } else {
        1 + frame_len(lines.drop_first())
    }
}

/// A line as the shell prints it for ordinary output: ended by a newline and
/// free of the marker.
pub open spec fn plain_line(line: Seq<char>) -> bool {
    line.len() > 0 && line.last() == '\n' && !ends_response(line)
}

/// The marker is sixteen characters long and holds no line break.
pub proof fn lemma_sentinel_shape()
    ensures
        sentinel().len() == 16,
        forall|k: int| 0 <= k < sentinel().len() ==> sentinel()[k] != '\n',
{
    reveal_strlit("~end-of-command~");
}

/// The text to write to the shell to run `command`.
pub fn command_request(command: &str) -> (r: String)
    ensures
        r@ == request(command@),
{
    let mut r = String::from_str(command);
    r.append("\n");
    r.append("echo ");
    r.append(END_OF_COMMAND);
    r.append("\n");
    proof {
        reveal_strlit("\n");
    }
    r
}

/// Whether `line`, read from the shell, ends the current response.
pub fn is_end_of_response(line: &str) -> (r: bool)
    ensures
        r == ends_response(line@),
{
    contains_text(line, END_OF_COMMAND)
}

/// The response carried by the text read up to and including the marker.
pub fn clean_response(raw: &str) -> (r: String)
    ensures
        r@ == response_text(raw@),
{
    proof {
        lemma_sentinel_shape();
    }
    let removed = remove_all_text(raw, END_OF_COMMAND);
    trim(removed.as_str())
}

/// Gathers the lines of one response as they are read from the shell.
pub struct ResponseCollector {
    buffer: String,
    complete: bool,
}

impl View for ResponseCollector {
    /// The text gathered so far, and whether its last line held the marker.
    type V = (Seq<char>, bool);

    closed spec fn view(&self) -> (Seq<char>, bool) {
        (self.buffer@, self.complete)
    }
}

impl ResponseCollector {
    /// A collector that has gathered nothing.
    pub fn new() -> (r: Self)
        ensures
            r@.0 == Seq::<char>::empty(),
            !r@.1,
    {
        ResponseCollector { buffer: String::new(), complete: false }
    }

    /// Adds one line read from the shell; returns whether it ends the
    /// response.
    pub fn push_line(&mut self, line: &str) -> (done: bool)
        requires
            !old(self)@.1,
        ensures
            done == ends_response(line@),
            final(self)@.0 == old(self)@.0 + line@,
            final(self)@.1 == done,
    {
        self.buffer.append(line);
        let done = is_end_of_response(line);
        self.complete = done;
        done
    }

    /// Whether the last line added held the marker.
    pub fn is_complete(&self) -> (r: bool)
        ensures
            r == self@.1,
    {
        self.complete
    }

    /// The response carried by the text gathered so far.
    pub fn response(&self) -> (r: String)
        ensures
            r@ == response_text(self@.0),
    {
        clean_response(self.buffer.as_str())
    }
}

/// Removing the marker leaves `x` in front untouched when no marker starts
/// inside `x`.
proof fn lemma_remove_all_keeps_prefix(x: Seq<char>, z: Seq<char>)
    requires
        sentinel().len() > 0,
        forall|i: int| 0 <= i < x.len() ==> !occurs_at(x + z, sentinel(), i),
    ensures
        remove_all(x + z, sentinel()) == x + remove_all(z, sentinel()),
    decreases x.len(),
{
    let p = sentinel();
    if x.len() == 0 {
        assert(x + z =~= z);
    } else if (x + z).len() < p.len() {
        assert(x + z =~= x + z);
    } else {
        assert(!occurs_at(x + z, p, 0));
        assert((x + z).subrange(0, p.len() as int) =~= (x + z).take(p.len() as int));
        assert((x + z).skip(1) =~= x.skip(1) + z);
        assert forall|i: int| 0 <= i < x.skip(1).len() implies !occurs_at(
            x.skip(1) + z,
            p,
            i,
        ) by {
            assert(!occurs_at(x + z, p, i + 1));
            if i + p.len() <= (x.skip(1) + z).len() {
                assert((x.skip(1) + z).subrange(i, i + p.len()) =~= (x + z).subrange(
                    i + 1,
                    i + 1 + p.len(),
                ));
            }
        }
        lemma_remove_all_keeps_prefix(x.skip(1), z);
        assert(seq![x[0]] + (x.skip(1) + remove_all(z, p)) =~= x + remove_all(z, p));
    }
}

/// In `x + z`, where `x` is empty or ends with a line break, every marker
/// that starts inside `x` lies inside `x`.
proof fn lemma_no_marker_across_line_end(x: Seq<char>, z: Seq<char>, i: int)
    requires
        x.len() == 0 || x.last() == '\n',
        0 <= i < x.len(),
        occurs_at(x + z, sentinel(), i),
    ensures
        occurs_at(x, sentinel(), i),
{
    lemma_sentinel_shape();
    let p = sentinel();
    if i + p.len() > x.len() {
        let k = x.len() - 1 - i;
        assert((x + z).subrange(i, i + p.len())[k] == (x + z)[x.len() - 1]);
    } else {
        assert((x + z).subrange(i, i + p.len()) =~= x.subrange(i, i + p.len()));
    }
}

/// Round trip: when the shell prints `out`, which holds no marker and is
/// empty or ends with a line break, and then the marker line, the response
/// is `out` trimmed.
pub proof fn lemma_round_trip(out: Seq<char>)
    requires
        !contains(out, sentinel()),
        out.len() == 0 || out.last() == '\n',
    ensures
        response_text(out + sentinel_line()) == trimmed(out),
{
    lemma_sentinel_shape();
    let p = sentinel();
    let nl = seq!['\n'];
    assert forall|i: int| 0 <= i < out.len() implies !occurs_at(out + sentinel_line(), p, i) by {
        if occurs_at(out + sentinel_line(), p, i) {
            lemma_no_marker_across_line_end(out, sentinel_line(), i);
        }
    }
    lemma_remove_all_keeps_prefix(out, sentinel_line());
    assert(sentinel_line().take(p.len() as int) =~= p);
    assert(sentinel_line().skip(p.len() as int) =~= nl);
    assert(remove_all(sentinel_line(), p) == remove_all(nl, p));
    assert(remove_all(nl, p) == nl);
    let both = out + nl;
    assert(both.drop_last() =~= out);
    assert(is_white_space(both.last()));
    assert(trim_end(both) == trim_end(out));
}

/// Joining lines and then one more line is joining them all.
proof fn lemma_concat_push(lines: Seq<Seq<char>>, line: Seq<char>)
    ensures
        concat_lines(lines.push(line)) == concat_lines(lines) + line,
{
    assert(lines.push(line).drop_last() =~= lines);
}

/// Plain lines joined hold no marker and are empty or end with a line break.
proof fn lemma_concat_plain(lines: Seq<Seq<char>>)
    requires
        forall|k: int| 0 <= k < lines.len() ==> plain_line(#[trigger] lines[k]),
    ensures
        !contains(concat_lines(lines), sentinel()),
        concat_lines(lines).len() == 0 || concat_lines(lines).last() == '\n',
    decreases lines.len(),
{
    lemma_sentinel_shape();
    if lines.len() > 0 {
        let init = lines.drop_last();
        let last = lines.last();
        assert(plain_line(lines[lines.len() - 1]));
        assert forall|k: int| 0 <= k < init.len() implies plain_line(#[trigger] init[k]) by {
            assert(init[k] == lines[k]);
        }
        lemma_concat_plain(init);
        let x = concat_lines(init);
        assert(concat_lines(lines) == x + last);
        assert forall|i: int| !occurs_at(x + last, sentinel(), i) by {
            if occurs_at(x + last, sentinel(), i) {
                if i < x.len() {
                    lemma_no_marker_across_line_end(x, last, i);
                    assert(contains(x, sentinel()));
                } else {
                    let j = i - x.len();
                    assert((x + last).subrange(i, i + sentinel().len()) =~= last.subrange(
                        j,
                        j + sentinel().len(),
                    ));
                    assert(occurs_at(last, sentinel(), j));
                    assert(contains(last, sentinel()));
                }
            }
        }
    }
}

/// The first response of a stream whose lines before the first marker line
/// are `before` spans those lines and the marker line.
proof fn lemma_frame_len(before: Seq<Seq<char>>, marker: Seq<char>, rest: Seq<Seq<char>>)
    requires
        ends_response(marker),
        forall|k: int| 0 <= k < before.len() ==> !ends_response(#[trigger] before[k]),
    ensures
        frame_len(before.push(marker) + rest) == before.len() + 1,
    decreases before.len(),
{
    let s = before.push(marker) + rest;
    if before.len() == 0 {
        assert(s[0] == marker);
    } else {
        assert(s[0] == before[0]);
        assert(s.drop_first() =~= before.drop_first().push(marker) + rest);
        lemma_frame_len(before.drop_first(), marker, rest);
    }
}

/// Responses keep their order: when the shell prints the plain lines `a`,
/// the marker line, the plain lines `b` and the marker line, the first
/// response takes `a` and its marker line and is `a` trimmed; what follows
/// is `b` and its marker line, whose response is `b` trimmed.
pub proof fn lemma_responses_in_order(a: Seq<Seq<char>>, b: Seq<Seq<char>>)
    requires
        forall|k: int| 0 <= k < a.len() ==> plain_line(#[trigger] a[k]),
        forall|k: int| 0 <= k < b.len() ==> plain_line(#[trigger] b[k]),
    ensures
        ({
            let stream = a.push(sentinel_line()) + b.push(sentinel_line());
            let first = frame_len(stream);
            let rest = stream.skip(first as int);
            &&& first == a.len() + 1
            &&& response_text(concat_lines(stream.take(first as int))) == trimmed(
                concat_lines(a),
            )
            &&& rest == b.push(sentinel_line())
            &&& frame_len(rest) == b.len() + 1
            &&& response_text(concat_lines(rest.take(frame_len(rest) as int))) == trimmed(
                concat_lines(b),
            )
        }),
{
    lemma_sentinel_shape();
    let sl = sentinel_line();
    assert(sl.subrange(0, sentinel().len() as int) =~= sentinel());
    assert(occurs_at(sl, sentinel(), 0));
    assert(ends_response(sl));
    let stream = a.push(sl) + b.push(sl);
    lemma_frame_len(a, sl, b.push(sl));
    lemma_frame_len(b, sl, Seq::empty());
    assert(b.push(sl) + Seq::<Seq<char>>::empty() =~= b.push(sl));
    assert(stream.take(a.len() + 1 as int) =~= a.push(sl));
    assert(stream.skip(a.len() + 1 as int) =~= b.push(sl));
    assert(b.push(sl).take(b.len() + 1 as int) =~= b.push(sl));
    lemma_concat_push(a, sl);
    lemma_concat_push(b, sl);
    lemma_concat_plain(a);
    lemma_concat_plain(b);
    lemma_round_trip(concat_lines(a));
    lemma_round_trip(concat_lines(b));
}

} // verus!
