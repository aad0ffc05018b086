//! The scanner: reads the listing of listening sockets that the host
//! produced, row by row, into port bindings, and attaches to each binding the
//! command line that the host resolved for its process.
//!
//! A listing is a text of lines. Its first line is a header. Every other line
//! is a row of fields separated by white space: the process name first, the
//! process identifier second, and as ninth field the local address, which
//! ends in `:` and the port. A line that is not such a row is passed over.

use crate::binding::{view_of, views, Binding, PortBinding};
use crate::host::{decode, decode_lossy, lossy_text, CommandOutcome};
use crate::text::{chars_of, is_space, is_whitespace, number, parse_number, string_of, trim, trimmed};
use vstd::prelude::*;
use vstd::utf8::{decode_utf8, valid_utf8};

verus! {

/// Why a scan gave no bindings.
#[derive(Debug, PartialEq, Eq, Clone, Copy, Structural)]
pub enum ScanFailure {
    /// The listing command could not be started.
    Unavailable,
    /// The listing command ran and reported failure.
    Failed,
    /// The listing command wrote something that is not UTF-8 text.
    Undecodable,
}

/// The number of characters of `text` before its first line break.
pub open spec fn line_len(text: Seq<char>) -> nat
    decreases text.len(),
{
    if text.len() == 0 || text[0] == '\n' {
        0
    } else {
        1 + line_len(text.skip(1))
    }
}

/// The number of characters of `s` before its first white space.
pub open spec fn word_len(s: Seq<char>) -> nat
    decreases s.len(),
{
    if s.len() == 0 || is_whitespace(s[0]) {
        0
    } else {
        1 + word_len(s.skip(1))
    }
}

/// The fields of a line: its maximal runs of characters that are not white
/// space, from left to right.
pub open spec fn fields(line: Seq<char>) -> Seq<Seq<char>>
    decreases line.len(),
    via fields_decreases
{
    if line.len() == 0 {
        Seq::empty()
    } else if is_whitespace(line[0]) {
        fields(line.skip(1))
    } else {
        let n = word_len(line);
        seq![line.take(n as int)] + fields(line.skip(n as int))
    }
}

#[via_fn]
proof fn fields_decreases(line: Seq<char>) {
    lemma_word_len(line);
}

/// The part of `s` after its last `sep`; all of `s` where it holds no `sep`.
pub open spec fn after_last(s: Seq<char>, sep: char) -> Seq<char>
    decreases s.len(),
{
    if s.len() == 0 || s.last() == sep {
        Seq::empty()
    } else {
        after_last(s.drop_last(), sep).push(s.last())
    }
}

/// The binding that a line of the listing describes, if it describes one: the
/// line has at least nine fields, the second is a process identifier and the
/// ninth ends in a port. The command line is not part of the listing and is
/// left empty.
pub open spec fn row(line: Seq<char>) -> Option<Binding> {
    let f = fields(line);
    if f.len() < 9 {
        None
    } else {
        match (number(f[1], u32::MAX as nat), number(after_last(f[8], ':'), u16::MAX as nat)) {
            (Some(pid), Some(port)) => Some(
                Binding { pid: pid as u32, name: f[0], port: port as u16, command: Seq::empty() },
            ),
            _ => None,
        }
    }
}

/// The bindings that the lines of `text` describe, in the order of the lines.
pub open spec fn rows(text: Seq<char>) -> Seq<Binding>
    decreases text.len(),
{
    let n = line_len(text);
    let first = match row(text.take(n as int)) {
        Some(b) => seq![b],
        None => Seq::empty(),
    };
    if n >= text.len() {
        first
    } else {
        first + rows(text.skip(n as int + 1))
    }
}

/// The bindings of a listing: those of its lines after the header line.
pub open spec fn listing(text: Seq<char>) -> Seq<Binding> {
    let n = line_len(text);
    if n >= text.len() {
        Seq::empty()
    } else {
        rows(text.skip(n as int + 1))
    }
}

/// A line ends within the text, at a line break or at the end of the text, and
/// holds no line break itself.
pub proof fn lemma_line_len(text: Seq<char>)
    ensures
        line_len(text) <= text.len(),
        line_len(text) < text.len() ==> text[line_len(text) as int] == '\n',
        forall|i: int| 0 <= i < line_len(text) ==> #[trigger] text[i] != '\n',
    decreases text.len(),
{
    if text.len() > 0 && text[0] != '\n' {
        let rest = text.skip(1);
        lemma_line_len(rest);
        assert forall|i: int| 0 <= i < line_len(text) implies #[trigger] text[i] != '\n' by {
            if i > 0 {
                assert(text[i] == rest[i - 1]);
            }
        }
    }
}

/// A word ends within the text, at white space or at the end of the text, and
/// holds no white space itself.
pub proof fn lemma_word_len(s: Seq<char>)
    ensures
        word_len(s) <= s.len(),
        word_len(s) < s.len() ==> is_whitespace(s[word_len(s) as int]),
        forall|i: int| 0 <= i < word_len(s) ==> !is_whitespace(#[trigger] s[i]),
    decreases s.len(),
{
    if s.len() > 0 && !is_whitespace(s[0]) {
        let rest = s.skip(1);
        lemma_word_len(rest);
        assert forall|i: int| 0 <= i < word_len(s) implies !is_whitespace(#[trigger] s[i]) by {
            if i > 0 {
                assert(s[i] == rest[i - 1]);
            }
        }
    }
}

/// Every field of a line is a word: it is not empty and holds no white space.
pub proof fn lemma_fields_are_words(line: Seq<char>, k: int)
    requires
        0 <= k < fields(line).len(),
    ensures
        fields(line)[k].len() > 0,
        forall|i: int| 0 <= i < fields(line)[k].len() ==> !is_whitespace(#[trigger] fields(line)[k][i]),
    decreases line.len(),
{
    if line.len() == 0 {
    } else if is_whitespace(line[0]) {
        lemma_fields_are_words(line.skip(1), k);
    } else {
        let n = word_len(line);
        lemma_word_len(line);
        if k > 0 {
            lemma_fields_are_words(line.skip(n as int), k - 1);
        }
    }
}

/// A word that is followed by white space ends where it ends alone.
proof fn lemma_word_len_join(a: Seq<char>, c: char, b: Seq<char>)
    requires
        is_whitespace(c),
    ensures
        word_len(a + seq![c] + b) == word_len(a),
    decreases a.len(),
{
    let joined = a + seq![c] + b;
    if a.len() == 0 {
        assert(joined[0] == c);
    } else {
        assert(joined[0] == a[0]);
        if !is_whitespace(a[0]) {
            lemma_word_len_join(a.skip(1), c, b);
            assert(joined.skip(1) =~= a.skip(1) + seq![c] + b);
        }
    }
}

/// White space separates fields: the fields of two texts joined by a white
/// space character are the fields of the first, then those of the second.
pub proof fn lemma_fields_join(a: Seq<char>, c: char, b: Seq<char>)
    requires
        is_whitespace(c),
    ensures
        fields(a + seq![c] + b) == fields(a) + fields(b),
    decreases a.len(),
{
    let joined = a + seq![c] + b;
    if a.len() == 0 {
        assert(joined[0] == c);
        assert(joined.skip(1) =~= b);
    } else if is_whitespace(a[0]) {
        assert(joined[0] == a[0]);
        assert(joined.skip(1) =~= a.skip(1) + seq![c] + b);
        lemma_fields_join(a.skip(1), c, b);
    } else {
        let n = word_len(a) as int;
        lemma_word_len(a);
        lemma_word_len_join(a, c, b);
        assert(joined[0] == a[0]);
        assert(joined.take(n) =~= a.take(n));
        assert(joined.skip(n) =~= a.skip(n) + seq![c] + b);
        lemma_fields_join(a.skip(n), c, b);
        assert(seq![a.take(n)] + (fields(a.skip(n)) + fields(b)) =~= (seq![a.take(n)] + fields(
            a.skip(n),
        )) + fields(b));
    }
}

/// A text without white space that is not empty is one field, and a text of
/// nothing but white space has no field.
pub proof fn lemma_fields_of_word(word: Seq<char>)
    ensures
        word.len() > 0 && (forall|i: int| 0 <= i < word.len() ==> !is_whitespace(#[trigger] word[i]))
            ==> fields(word) == seq![word],
        (forall|i: int| 0 <= i < word.len() ==> is_whitespace(#[trigger] word[i])) ==> fields(word)
            == Seq::<Seq<char>>::empty(),
    decreases word.len(),
{
    if word.len() > 0 {
        if forall|i: int| 0 <= i < word.len() ==> !is_whitespace(#[trigger] word[i]) {
            lemma_word_len(word);
            let n = word_len(word) as int;
            assert(n == word.len()) by {
                if n < word.len() {
                    assert(is_whitespace(word[n]));
                }
            }
            assert(!is_whitespace(word[0]));
            assert(word.take(n) =~= word);
            assert(word.skip(n).len() == 0);
            assert(fields(word.skip(n)) =~= Seq::<Seq<char>>::empty());
            assert(seq![word] + Seq::<Seq<char>>::empty() =~= seq![word]);
        }
        if forall|i: int| 0 <= i < word.len() ==> is_whitespace(#[trigger] word[i]) {
            let rest = word.skip(1);
            assert forall|i: int| 0 <= i < rest.len() implies is_whitespace(#[trigger] rest[i]) by {
                assert(rest[i] == word[i + 1]);
            }
            lemma_fields_of_word(rest);
        }
    }
}

/// The part after the last separator is what follows a separator and holds
/// none itself; a text without separator is that part as a whole.
pub proof fn lemma_after_last(head: Seq<char>, sep: char, tail: Seq<char>)
    requires
        forall|i: int| 0 <= i < tail.len() ==> #[trigger] tail[i] != sep,
    ensures
        after_last(head + seq![sep] + tail, sep) == tail,
        after_last(tail, sep) == tail,
    decreases tail.len(),
{
    let joined = head + seq![sep] + tail;
    if tail.len() == 0 {
        assert(joined.last() == sep);
    } else {
        let front = tail.drop_last();
        assert forall|i: int| 0 <= i < front.len() implies #[trigger] front[i] != sep by {
            assert(front[i] == tail[i]);
        }
        lemma_after_last(head, sep, front);
        assert(joined.last() == tail.last());
        assert(joined.drop_last() =~= head + seq![sep] + front);
        assert(front.push(tail.last()) =~= tail);
    }
}

/// A line break ends the first line of a text wherever it is followed by more
/// text.
proof fn lemma_line_len_join(a: Seq<char>, b: Seq<char>)
    ensures
        line_len(a + seq!['\n'] + b) == line_len(a),
    decreases a.len(),
{
    let joined = a + seq!['\n'] + b;
    if a.len() == 0 {
        assert(joined[0] == '\n');
    } else {
        assert(joined[0] == a[0]);
        if a[0] != '\n' {
            lemma_line_len_join(a.skip(1), b);
            assert(joined.skip(1) =~= a.skip(1) + seq!['\n'] + b);
        }
    }
}

/// Line breaks separate rows: the bindings of two texts joined by a line
/// break are the bindings of the first, then those of the second.
pub proof fn lemma_rows_join(a: Seq<char>, b: Seq<char>)
    ensures
        rows(a + seq!['\n'] + b) == rows(a) + rows(b),
    decreases a.len(),
{
    let joined = a + seq!['\n'] + b;
    let n = line_len(a) as int;
    lemma_line_len(a);
    lemma_line_len_join(a, b);
    assert(joined.take(n) =~= a.take(n));
    let first = match row(a.take(n)) {
        Some(binding) => seq![binding],
        None => Seq::empty(),
    };
    if n >= a.len() {
        assert(joined.skip(n + 1) =~= b);
    } else {
        assert(joined.skip(n + 1) =~= a.skip(n + 1) + seq!['\n'] + b);
        lemma_rows_join(a.skip(n + 1), b);
        assert(first + (rows(a.skip(n + 1)) + rows(b)) =~= (first + rows(a.skip(n + 1))) + rows(b));
    }
}

/// A text without line break is one line, and yields the binding of that line
/// if the line is a row.
pub proof fn lemma_rows_of_line(line: Seq<char>)
    requires
        forall|i: int| 0 <= i < line.len() ==> #[trigger] line[i] != '\n',
    ensures
        rows(line) == match row(line) {
            Some(binding) => seq![binding],
            None => Seq::empty(),
        },
{
    lemma_line_len(line);
    let n = line_len(line) as int;
    assert(n == line.len()) by {
        if n < line.len() {
            assert(line[n] == '\n');
        }
    }
    assert(line.take(n) =~= line);
}

/// The first line of a listing is its header and yields no binding, whatever
/// it holds; the bindings are those of the lines after it.
pub proof fn lemma_listing_skips_header(header: Seq<char>, body: Seq<char>)
    requires
        forall|i: int| 0 <= i < header.len() ==> #[trigger] header[i] != '\n',
    ensures
        listing(header + seq!['\n'] + body) == rows(body),
        listing(header) == Seq::<Binding>::empty(),
{
    let text = header + seq!['\n'] + body;
    lemma_line_len(header);
    lemma_line_len_join(header, body);
    let n = line_len(header) as int;
    assert(n == header.len()) by {
        if n < header.len() {
            assert(header[n] == '\n');
        }
    }
    assert(text.skip(n + 1) =~= body);
}

/// The end of the line that starts at `from`: the place of the next line
/// break, or the end of the text.
fn line_end(chars: &Vec<char>, from: usize) -> (end: usize)
    requires
        from <= chars.len(),
    ensures
        from <= end <= chars.len(),
        end - from == line_len(chars@.skip(from as int)),
{
    let n = chars.len();
    let mut end: usize = from;
    while end < n && chars[end] != '\n'
        invariant
            from <= end <= n == chars.len(),
            line_len(chars@.skip(from as int)) == (end - from) + line_len(chars@.skip(end as int)),
        decreases n - end,
    {
        assert(chars@.skip(end as int).skip(1) =~= chars@.skip(end as int + 1));
        end += 1;
    }
    end
}

/// The end of the word that starts at `from` within `chars[from..end]`.
fn word_end(chars: &Vec<char>, from: usize, end: usize) -> (stop: usize)
    requires
        from <= end <= chars.len(),
    ensures
        from <= stop <= end,
        stop - from == word_len(chars@.subrange(from as int, end as int)),
{
    let mut stop: usize = from;
    while stop < end && !is_space(chars[stop])
        invariant
            from <= stop <= end <= chars.len(),
            word_len(chars@.subrange(from as int, end as int)) == (stop - from) + word_len(
                chars@.subrange(stop as int, end as int),
            ),
        decreases end - stop,
    {
        assert(chars@.subrange(stop as int, end as int).skip(1) =~= chars@.subrange(
            stop as int + 1,
            end as int,
        ));
        stop += 1;
    }
    stop
}

/// Where the fields of the line `chars[from..end]` begin and end.
fn field_spans(chars: &Vec<char>, from: usize, end: usize) -> (spans: Vec<(usize, usize)>)
    requires
        from <= end <= chars.len(),
    ensures
        spans.len() == fields(chars@.subrange(from as int, end as int)).len(),
        forall|k: int|
            0 <= k < spans.len() ==> {
                &&& from <= (#[trigger] spans[k]).0 <= spans[k].1 <= end
                &&& chars@.subrange(spans[k].0 as int, spans[k].1 as int) == fields(
                    chars@.subrange(from as int, end as int),
                )[k]
            },
{
    let ghost line = chars@.subrange(from as int, end as int);
    let mut spans: Vec<(usize, usize)> = Vec::new();
    let ghost mut done: Seq<Seq<char>> = Seq::empty();
    let mut pos: usize = from;
    assert(done + fields(line) =~= fields(line));
    while pos < end
        invariant
            from <= pos <= end <= chars.len(),
            line == chars@.subrange(from as int, end as int),
            done + fields(chars@.subrange(pos as int, end as int)) == fields(line),
            spans.len() == done.len(),
            forall|k: int|
                0 <= k < spans.len() ==> {
                    &&& from <= (#[trigger] spans[k]).0 <= spans[k].1 <= end
                    &&& chars@.subrange(spans[k].0 as int, spans[k].1 as int) == done[k]
                },
        decreases end - pos,
    {
        let ghost rest = chars@.subrange(pos as int, end as int);
        if is_space(chars[pos]) {
            assert(rest.skip(1) =~= chars@.subrange(pos as int + 1, end as int));
            pos += 1;
        } else {
            let stop = word_end(chars, pos, end);
            proof {
                let n = word_len(rest);
                assert(rest.take(n as int) =~= chars@.subrange(pos as int, stop as int));
                assert(rest.skip(n as int) =~= chars@.subrange(stop as int, end as int));
                let word = chars@.subrange(pos as int, stop as int);
                let after = fields(chars@.subrange(stop as int, end as int));
                assert(done.push(word) + after =~= done + (seq![word] + after));
                done = done.push(word);
            }
            spans.push((pos, stop));
            pos = stop;
        }
    }
    assert(fields(chars@.subrange(end as int, end as int)) =~= Seq::<Seq<char>>::empty());
    assert(done + Seq::<Seq<char>>::empty() =~= done);
    spans
}

/// Where the part of `chars[from..to]` after its last `sep` begins.
fn tail_start(chars: &Vec<char>, from: usize, to: usize, sep: char) -> (start: usize)
    requires
        from <= to <= chars.len(),
    ensures
        from <= start <= to,
        chars@.subrange(start as int, to as int) == after_last(
            chars@.subrange(from as int, to as int),
            sep,
        ),
{
    let mut start: usize = to;
    assert(chars@.subrange(to as int, to as int) =~= Seq::<char>::empty());
    assert(after_last(chars@.subrange(from as int, to as int), sep) + Seq::<char>::empty()
        =~= after_last(chars@.subrange(from as int, to as int), sep));
    while start > from && chars[start - 1] != sep
        invariant
            from <= start <= to <= chars.len(),
            after_last(chars@.subrange(from as int, to as int), sep) == after_last(
                chars@.subrange(from as int, start as int),
                sep,
            ) + chars@.subrange(start as int, to as int),
        decreases start - from,
    {
        let ghost head = chars@.subrange(from as int, start as int);
        assert(head.drop_last() =~= chars@.subrange(from as int, start as int - 1));
        assert(after_last(head.drop_last(), sep).push(head.last()) + chars@.subrange(
            start as int,
            to as int,
        ) =~= after_last(head.drop_last(), sep) + chars@.subrange(start as int - 1, to as int));
        start -= 1;
    }
    assert(Seq::<char>::empty() + chars@.subrange(start as int, to as int) =~= chars@.subrange(
        start as int,
        to as int,
    ));
    start
}

/// Reads the line `chars[from..end]` as a row of the listing.
fn parse_row(chars: &Vec<char>, from: usize, end: usize) -> (found: Option<PortBinding>)
    requires
        from <= end <= chars.len(),
    ensures
        view_of(found) == row(chars@.subrange(from as int, end as int)),
{
    let spans = field_spans(chars, from, end);
    if spans.len() < 9 {
        return None;
    }
    let (name_from, name_to) = spans[0];
    let (pid_from, pid_to) = spans[1];
    let (addr_from, addr_to) = spans[8];
    let port_from = tail_start(chars, addr_from, addr_to, ':');
    let pid = parse_number(chars, pid_from, pid_to, u32::MAX);
    let port = parse_number(chars, port_from, addr_to, 65535);
    match (pid, port) {
        (Some(pid), Some(port)) => Some(
            PortBinding {
                pid,
                name: string_of(chars, name_from, name_to),
                port: port as u16,
                command: String::new(),
            },
        ),
        _ => None,
    }
}

/// Reads a listing: the bindings that its rows describe, in the order of the
/// rows, each with an empty command line.
pub fn parse_listing(text: &str) -> (found: Vec<PortBinding>)
    ensures
        views(found@) == listing(text@),
{
    let chars = chars_of(text);
    let n = chars.len();
    let mut found: Vec<PortBinding> = Vec::new();
    assert(chars@.skip(0) =~= chars@);
    let header_end = line_end(&chars, 0);
    if header_end >= n {
        assert(views(found@) =~= Seq::<Binding>::empty());
        return found;
    }
    let mut pos: usize = header_end + 1;
    assert(views(found@) + rows(chars@.skip(pos as int)) =~= listing(chars@));
    loop
        invariant_except_break
            pos <= n == chars.len(),
            views(found@) + rows(chars@.skip(pos as int)) == listing(chars@),
        ensures
            views(found@) == listing(chars@),
        decreases n - pos,
    {
        let ghost rest = chars@.skip(pos as int);
        let ghost before = views(found@);
        let end = line_end(&chars, pos);
        assert(rest.take(end - pos) =~= chars@.subrange(pos as int, end as int));
        match parse_row(&chars, pos, end) {
            Some(binding) => {
                proof {
                    crate::binding::lemma_views_push(found@, binding);
                    assert(before.push(binding@) =~= before + seq![binding@]);
                }
                found.push(binding);
            },
            None => {
                assert(before + Seq::<Binding>::empty() =~= before);
            },
        }
        if end >= n {
            break ;
        }
        proof {
            let first = match row(rest.take(end - pos)) {
                Some(b) => seq![b],
                None => Seq::empty(),
            };
            assert(rest.skip(end - pos + 1) =~= chars@.skip(end as int + 1));
            assert(before + (first + rows(chars@.skip(end as int + 1))) =~= (before + first) + rows(
                chars@.skip(end as int + 1),
            ));
        }
        pos = end + 1;
    }
    found
}

/// The bindings that the outcome of the listing command yields, or why it
/// yields none.
pub open spec fn discovered(outcome: CommandOutcome) -> Result<Seq<Binding>, ScanFailure> {
    match outcome {
        CommandOutcome::NotRun => Err(ScanFailure::Unavailable),
        CommandOutcome::Exited { success, stdout, stderr } => if !success {
            Err(ScanFailure::Failed)
        } else if !valid_utf8(stdout@) {
            Err(ScanFailure::Undecodable)
        } else {
            Ok(listing(decode_utf8(stdout@)))
        },
    }
}

/// Turns the outcome of the listing command into bindings. It fails where the
/// command could not be started, where it reported failure, and where its
/// output is not UTF-8 text; a malformed row is no failure.
pub fn discover(outcome: CommandOutcome) -> (found: Result<Vec<PortBinding>, ScanFailure>)
    ensures
        match found {
            Ok(bindings) => discovered(outcome) == Ok::<Seq<Binding>, ScanFailure>(views(bindings@)),
            Err(failure) => discovered(outcome) == Err::<Seq<Binding>, ScanFailure>(failure),
        },
{
    match outcome {
        CommandOutcome::NotRun => Err(ScanFailure::Unavailable),
        CommandOutcome::Exited { success, stdout, stderr } => {
            if !success {
                Err(ScanFailure::Failed)
            } else {
                match decode(stdout) {
                    Some(text) => Ok(parse_listing(text.as_str())),
                    None => Err(ScanFailure::Undecodable),
                }
            }
        },
    }
}

/// The command line that the outcome of the command lookup yields: what the
/// lookup wrote, decoded leniently and trimmed, and nothing where the lookup
/// could not be started.
pub open spec fn command_of(outcome: CommandOutcome) -> Seq<char> {
    match outcome {
        CommandOutcome::NotRun => Seq::empty(),
        CommandOutcome::Exited { success, stdout, stderr } => trim(lossy_text(stdout@)),
    }
}

/// Turns the outcome of the command lookup into a command line.
pub fn command_text(outcome: &CommandOutcome) -> (command: String)
    ensures
        command@ == command_of(*outcome),
{
    match outcome {
        CommandOutcome::NotRun => String::new(),
        CommandOutcome::Exited { success, stdout, stderr } => {
            let text = decode_lossy(stdout);
            let chars = chars_of(text.as_str());
            trimmed(&chars)
        },
    }
}

/// `found` with the command lines that `lookups` yield: the binding at each
/// place gets the command line of the lookup at that place, and an empty one
/// where there is no lookup for it.
pub open spec fn resolved(found: Seq<Binding>, lookups: Seq<CommandOutcome>) -> Seq<Binding> {
    Seq::new(
        found.len(),
        |i: int|
            Binding {
                pid: found[i].pid,
                name: found[i].name,
                port: found[i].port,
                command: if i < lookups.len() {
                    command_of(lookups[i])
                } else {
                    Seq::empty()
                },
            },
    )
}

/// Attaches to each binding the command line of its lookup. A lookup that
/// failed, or is missing, leaves the command line empty and the binding in
/// place.
pub fn resolve(found: &Vec<PortBinding>, lookups: &Vec<CommandOutcome>) -> (bindings: Vec<
    PortBinding,
>)
    ensures
        views(bindings@) == resolved(views(found@), lookups@),
{
    let n = found.len();
    let mut bindings: Vec<PortBinding> = Vec::new();
    let mut i: usize = 0;
    while i < n
        invariant
            i <= n == found.len(),
            bindings.len() == i,
            forall|k: int| 0 <= k < i ==> (#[trigger] bindings@[k])@ == resolved(views(found@), lookups@)[k],
        decreases n - i,
    {
        let command = if i < lookups.len() {
            command_text(&lookups[i])
        } else {
            String::new()
        };
        bindings.push(
            PortBinding {
                pid: found[i].pid,
                name: found[i].name.clone(),
                port: found[i].port,
                command,
            },
        );
        i += 1;
    }
    assert(views(bindings@) =~= resolved(views(found@), lookups@));
    bindings
}

} // verus!
