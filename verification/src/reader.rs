//! Reading measurements from lines of input.

use crate::binary64::Binary64;
use vstd::prelude::*;
use vstd::utf8::{encode_utf8, encode_utf8_decode_utf8};

verus! {

/// The text of the line that ends the input.
pub open spec fn terminator() -> Seq<char> {
    seq!['9', '9', '9']
}

/// A line of input without its line break, and the number that its whole text
/// spells: `None` where it spells none.
#[derive(Debug)]
pub struct Line {
    pub text: String,
    pub value: Option<Binary64>,
}

/// What the reader does with a line.
#[derive(Clone, Copy, Debug, PartialEq, Eq, Structural)]
pub enum Verdict {
    /// The line ends the input: neither it nor a later line is read.
    Stop,
    /// The line is noise and is passed over.
    Discard,
    /// The line is a measurement.
    Keep(Binary64),
}

impl Line {
    /// The line ends the input exactly if its text is the terminator. Any
    /// other line is a measurement exactly if its text spells a number that
    /// is at least zero.
    pub open spec fn spec_verdict(&self) -> Verdict {
        if self.text@ == terminator() {
            Verdict::Stop
        } else {
            match self.value {
                Some(v) => if v.is_non_negative() {
                    Verdict::Keep(v)
                } else {
                    Verdict::Discard
                },
                None => Verdict::Discard,
            }
        }
    }

    /// A line with the given text and value.
    pub fn new(text: String, value: Option<Binary64>) -> (r: Line)
        ensures
            r.text == text,
            r.value == value,
    {
        Line { text, value }
    }

    /// What the reader does with the line.
    #[verifier::when_used_as_spec(spec_verdict)]
    pub fn verdict(&self) -> (r: Verdict)
        ensures
            r == self.spec_verdict(),
    {
        if is_terminator(self.text.as_str()) {
            Verdict::Stop
        } else {
            match self.value {
                Some(v) => if v.is_non_negative() {
                    Verdict::Keep(v)
                } else {
                    Verdict::Discard
                },
                None => Verdict::Discard,
            }
        }
    }
}

/// Whether two texts are the same, decided on their bytes.
fn same_text(a: &str, b: &str) -> (r: bool)
    ensures
        r == (a@ == b@),
{
    let x = a.as_bytes();
    let y = b.as_bytes();
    proof {
        encode_utf8_decode_utf8(a@);
        encode_utf8_decode_utf8(b@);
    }
    if x.len() != y.len() {
        return false;
    }
    let mut i: usize = 0;
    while i < x.len()
        invariant
            x@ == encode_utf8(a@),
            y@ == encode_utf8(b@),
            x.len() == y.len(),
            i <= x.len(),
            forall|j: int| 0 <= j < i ==> x@[j] == y@[j],
        decreases x.len() - i,
    {
        if x[i] != y[i] {
            return false;
        }
        i += 1;
    }
    assert(x@ =~= y@);
    true
}

/// Whether `text` is the terminator. The text decides, not the number that
/// it spells.
pub fn is_terminator(text: &str) -> (r: bool)
    ensures
        r == (text@ == terminator()),
{
    proof {
        reveal_strlit("999");
    }
    assert("999"@ =~= terminator());
    same_text(text, "999")
}

/// Whether one of the lines is the terminator.
pub open spec fn has_terminator(lines: Seq<Line>) -> bool {
    exists|i: int| 0 <= i < lines.len() && (#[trigger] lines[i]).text@ == terminator()
}

/// The measurements that the lines hold: the values of the lines that are
/// kept, in the order of the lines, up to the first line that stops the
/// reading.
pub open spec fn measurements_of(lines: Seq<Line>) -> Seq<Binary64>
    decreases lines.len(),
{
    if lines.len() == 0 {
        Seq::empty()
    } else {
        match lines[0].verdict() {
            Verdict::Stop => Seq::empty(),
            Verdict::Discard => measurements_of(lines.skip(1)),
            Verdict::Keep(v) => seq![v] + measurements_of(lines.skip(1)),
        }
    }
}

/// The measurements of two runs of lines, one after the other: those of the
/// first run, and then those of the second unless the first holds the
/// terminator.
pub proof fn lemma_measurements_of_concat(a: Seq<Line>, b: Seq<Line>)
    ensures
        measurements_of(a + b) == if has_terminator(a) {
            measurements_of(a)
        } else {
            measurements_of(a) + measurements_of(b)
        },
    decreases a.len(),
{
    if a.len() == 0 {
        assert(a + b =~= b);
        assert(measurements_of(a) + measurements_of(b) =~= measurements_of(b));
    } else {
        let rest = a.skip(1);
        assert((a + b)[0] == a[0]);
        assert((a + b).skip(1) =~= rest + b);
        lemma_measurements_of_concat(rest, b);
        if a[0].text@ == terminator() {
            assert(has_terminator(a));
        } else {
            if has_terminator(a) {
                let i = choose|i: int| 0 <= i < a.len() && (#[trigger] a[i]).text@ == terminator();
                assert(rest[i - 1] == a[i]);
                assert(has_terminator(rest));
            }
            if has_terminator(rest) {
                let i = choose|i: int|
                    0 <= i < rest.len() && (#[trigger] rest[i]).text@ == terminator();
                assert(a[i + 1] == rest[i]);
                assert(has_terminator(a));
            }
            match a[0].verdict() {
                Verdict::Keep(v) => {
                    assert(seq![v] + (measurements_of(rest) + measurements_of(b)) =~= (seq![v]
                        + measurements_of(rest)) + measurements_of(b));
                },
                _ => {},
            }
        }
    }
}

/// The measurements of one line alone.
pub open spec fn measurement_of(line: Line) -> Seq<Binary64> {
    match line.verdict() {
        Verdict::Keep(v) => seq![v],
        _ => Seq::empty(),
    }
}

/// The measurements of some lines and one more: those of the lines, and that
/// of the last line unless the terminator came before it.
pub proof fn lemma_measurements_of_push(lines: Seq<Line>, line: Line)
    ensures
        measurements_of(lines.push(line)) == if has_terminator(lines) {
            measurements_of(lines)
        } else {
            measurements_of(lines) + measurement_of(line)
        },
        has_terminator(lines.push(line)) == (has_terminator(lines) || line.text@ == terminator()),
{
    let last = seq![line];
    assert(lines.push(line) =~= lines + last);
    lemma_measurements_of_concat(lines, last);
    assert(last.skip(1) =~= Seq::<Line>::empty());
    assert(measurements_of(last) =~= measurement_of(line)) by {
        reveal_with_fuel(measurements_of, 2);
    }
    let more = lines.push(line);
    if has_terminator(lines) {
        let i = choose|i: int| 0 <= i < lines.len() && (#[trigger] lines[i]).text@ == terminator();
        assert(more[i] == lines[i]);
    }
    if line.text@ == terminator() {
        assert(more[lines.len() as int] == line);
    }
    if has_terminator(more) {
        let i = choose|i: int| 0 <= i < more.len() && (#[trigger] more[i]).text@ == terminator();
        if i < lines.len() {
            assert(lines[i] == more[i]);
        }
    }
}

/// Every measurement is at least zero, and none is a NaN.
pub proof fn lemma_measurements_are_non_negative(lines: Seq<Line>)
    ensures
        forall|i: int|
            0 <= i < measurements_of(lines).len() ==> (#[trigger] measurements_of(
                lines,
            )[i]).is_non_negative(),
    decreases lines.len(),
{
    if lines.len() > 0 {
        lemma_measurements_of_concat(seq![lines[0]], lines.skip(1));
        lemma_measurements_are_non_negative(lines.skip(1));
    }
}

/// Where no line is the terminator and every line spells a number that is at
/// least zero, the measurements are those numbers, in the order of the lines.
pub proof fn lemma_numeric_lines_are_all_read(lines: Seq<Line>)
    requires
        forall|i: int|
            0 <= i < lines.len() ==> {
                &&& (#[trigger] lines[i]).text@ != terminator()
                &&& lines[i].value is Some
                &&& lines[i].value->0.is_non_negative()
            },
    ensures
        measurements_of(lines) == Seq::new(lines.len(), |i: int| lines[i].value->0),
    decreases lines.len(),
{
    let values = Seq::new(lines.len(), |i: int| lines[i].value->0);
    if lines.len() == 0 {
        assert(measurements_of(lines) =~= values);
    } else {
        let rest = lines.skip(1);
        assert forall|i: int| 0 <= i < rest.len() implies {
            &&& (#[trigger] rest[i]).text@ != terminator()
            &&& rest[i].value is Some
            &&& rest[i].value->0.is_non_negative()
        } by {
            assert(rest[i] == lines[i + 1]);
        }
        lemma_numeric_lines_are_all_read(rest);
        assert(measurements_of(lines) =~= values);
    }
}

/// A line that is discarded leaves no trace: the measurements are those of
/// the lines before and after it. A line is discarded where it is not the
/// terminator and spells no number, a NaN or a number below zero.
pub proof fn lemma_discarded_line_leaves_no_trace(before: Seq<Line>, line: Line, after: Seq<Line>)
    requires
        line.verdict() == Verdict::Discard,
    ensures
        measurements_of(before + seq![line] + after) == measurements_of(before + after),
{
    let noise = seq![line];
    assert(before + noise + after =~= before + (noise + after));
    lemma_measurements_of_concat(before, noise + after);
    lemma_measurements_of_concat(before, after);
    assert((noise + after)[0] == line);
    assert((noise + after).skip(1) =~= after);
}

/// The terminator ends the reading: the measurements are those of the lines
/// before it, whatever follows it.
pub proof fn lemma_terminator_ends_reading(before: Seq<Line>, line: Line, after: Seq<Line>)
    requires
        line.text@ == terminator(),
    ensures
        measurements_of(before + seq![line] + after) == measurements_of(before),
{
    let end = seq![line];
    assert(before + end + after =~= before + (end + after));
    lemma_measurements_of_concat(before, end + after);
    assert((end + after)[0] == line);
    assert(measurements_of(before) + measurements_of(end + after) =~= measurements_of(before));
}

/// Only the text of the terminator ends the reading. A line with another
/// text that spells a number that is at least zero, be it the number 999, is
/// a measurement like any other, and the reading goes on behind it.
pub proof fn lemma_other_spelling_is_measured(
    before: Seq<Line>,
    line: Line,
    value: Binary64,
    after: Seq<Line>,
)
    requires
        !has_terminator(before),
        line.text@ != terminator(),
        line.value == Some(value),
        value.is_non_negative(),
    ensures
        measurements_of(before + seq![line] + after) == measurements_of(before).push(value)
            + measurements_of(after),
{
    let one = seq![line];
    assert(before + one + after =~= before + (one + after));
    lemma_measurements_of_concat(before, one + after);
    assert((one + after)[0] == line);
    assert((one + after).skip(1) =~= after);
    assert(measurements_of(before) + (seq![value] + measurements_of(after)) =~= measurements_of(
        before,
    ).push(value) + measurements_of(after));
}

/// A reader that is fed the lines one at a time, in the order of the input.
pub struct Reader {
    kept: Vec<Binary64>,
    stopped: bool,
    seen: Ghost<Seq<Line>>,
}

impl View for Reader {
    type V = Seq<Line>;

    /// The lines that the reader has been fed, first to last.
    closed spec fn view(&self) -> Seq<Line> {
        self.seen@
    }
}

impl Reader {
    #[verifier::type_invariant]
    spec fn well_formed(self) -> bool {
        &&& self.kept@ == measurements_of(self.seen@)
        &&& self.stopped == has_terminator(self.seen@)
    }

    /// A reader that has been fed no line.
    pub fn new() -> (r: Reader)
        ensures
            r@ == Seq::<Line>::empty(),
    {
        Reader { kept: Vec::new(), stopped: false, seen: Ghost(Seq::empty()) }
    }

    /// Takes the next line of the input. Returns whether the reader wants
    /// another: it does until it has been fed the terminator.
    pub fn feed(&mut self, line: &Line) -> (more: bool)
        ensures
            final(self)@ == old(self)@.push(*line),
            more == !has_terminator(final(self)@),
    {
        // The reader is taken out and put back whole, so that what stands
        // behind `self` is well formed at every moment.
        let mut taken = Reader::new();
        core::mem::swap(&mut taken, self);
        proof {
            use_type_invariant(&taken);
            lemma_measurements_of_push(taken.seen@, *line);
        }
        let Reader { mut kept, mut stopped, seen } = taken;
        if !stopped {
            match line.verdict() {
                Verdict::Stop => {
                    stopped = true;
                },
                Verdict::Discard => {},
                Verdict::Keep(v) => {
                    kept.push(v);
                },
            }
        }
        assert(kept@ =~= measurements_of(seen@.push(*line)));
        *self = Reader { kept, stopped, seen: Ghost(seen@.push(*line)) };
        !stopped
    }

    /// Whether the reader has been fed the terminator.
    pub fn is_stopped(&self) -> (r: bool)
        ensures
            r == has_terminator(self@),
    {
        proof {
            use_type_invariant(self);
        }
        self.stopped
    }

    /// The measurements of the lines that the reader has been fed.
    pub fn into_measurements(self) -> (r: Vec<Binary64>)
        ensures
            r@ == measurements_of(self@),
    {
        proof {
            use_type_invariant(&self);
        }
        self.kept
    }
}

/// Reads the measurements that the lines hold.
pub fn read_measurements(lines: &[Line]) -> (r: Vec<Binary64>)
    ensures
        r@ == measurements_of(lines@),
        forall|i: int| 0 <= i < r@.len() ==> (#[trigger] r@[i]).is_non_negative(),
{
    let mut reader = Reader::new();
    let mut i: usize = 0;
    let mut more = true;
    while more && i < lines.len()
        invariant
            i <= lines.len(),
            reader@ == lines@.take(i as int),
            more == !has_terminator(reader@),
        decreases lines.len() - i,
    {
        more = reader.feed(&lines[i]);
        assert(lines@.take(i as int).push(lines@[i as int]) =~= lines@.take(i + 1));
        i += 1;
    }
    proof {
        let head = lines@.take(i as int);
        let tail = lines@.skip(i as int);
        assert(head + tail =~= lines@);
        lemma_measurements_of_concat(head, tail);
        if more {
            assert(tail =~= Seq::<Line>::empty());
            assert(measurements_of(head) + measurements_of(tail) =~= measurements_of(head));
        }
        lemma_measurements_are_non_negative(lines@);
    }
    reader.into_measurements()
}

} // verus!
