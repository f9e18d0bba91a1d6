//! Stack traces, parsed and filtered: one printed line becomes a frame, and
//! the frames nobody needs to read are marked or taken out.
//!
//! A stack trace as the runtime prints it is a wall of text, most of it about
//! the framework rather than about the caller's mistake. What is here turns
//! that text into frames and then throws away the frames nobody wants to read:
//! the async plumbing, the timer internals, and the long repetitive runs a
//! build error leaves behind.

use crate::text::{
    contains_chars, contains_seq,
    lemma_find_first_bounds,
    chars_of, find_first, find_first_in, find_last, find_last_in, is_digit, is_whitespace,
    leading_count, matches_at, owned, parse_i32, parse_i32_range, remove_all, remove_all_in,
    same_chars, skip_char, skip_whitespace, starts_with, string_of, string_of_range, trim,
    trim_bounds, trim_start,
};
use vstd::prelude::*;

verus! {

/// One line of a stack trace, taken apart.
#[derive(Clone, Debug, PartialEq, Eq)]
pub struct StackFrame {
    /// The line as it was printed, kept so that a frame can always be shown
    /// again exactly as it arrived.
    pub source: String,
    /// The frame's position in the trace. `-1` for the two synthetic frames,
    /// which have no position.
    pub number: i32,
    pub column: i32,
    pub line: i32,
    pub package_scheme: String,
    pub package: String,
    pub package_path: String,
    pub class_name: String,
    pub method: String,
    pub is_constructor: bool,
}

/// A frame as values: its text fields as character sequences.
pub struct FrameView {
    pub source: Seq<char>,
    pub number: i32,
    pub column: i32,
    pub line: i32,
    pub package_scheme: Seq<char>,
    pub package: Seq<char>,
    pub package_path: Seq<char>,
    pub class_name: Seq<char>,
    pub method: Seq<char>,
    pub is_constructor: bool,
}

impl View for StackFrame {
    type V = FrameView;

    open spec fn view(&self) -> FrameView {
        FrameView {
            source: self.source@,
            number: self.number,
            column: self.column,
            line: self.line,
            package_scheme: self.package_scheme@,
            package: self.package@,
            package_path: self.package_path@,
            class_name: self.class_name@,
            method: self.method@,
            is_constructor: self.is_constructor,
        }
    }
}

/// The marker the runtime prints where a stack crosses an `await`.
pub open spec fn suspension_frame() -> FrameView {
    FrameView {
        source: "<asynchronous suspension>"@,
        number: -1i32,
        column: -1i32,
        line: -1i32,
        package_scheme: Seq::empty(),
        package: Seq::empty(),
        package_path: Seq::empty(),
        class_name: Seq::empty(),
        method: "asynchronous suspension"@,
        is_constructor: false,
    }
}

/// The `...` the runtime prints in place of the frames of a stack overflow.
pub open spec fn elision_frame() -> FrameView {
    FrameView {
        source: "..."@,
        number: -1i32,
        column: -1i32,
        line: -1i32,
        package_scheme: Seq::empty(),
        package: Seq::empty(),
        package_path: Seq::empty(),
        class_name: Seq::empty(),
        method: "..."@,
        is_constructor: false,
    }
}

/// How many decimal digits stand at the front of `s`.
pub open spec fn leading_digits(s: Seq<char>) -> int
    decreases s.len(),
{
    if s.len() > 0 && is_digit(s[0]) {
        1 + leading_digits(s.drop_first())
    } else {
        0
    }
}

/// Where the last `" ("` in `s` starts, if there is one.
pub open spec fn find_last_open(s: Seq<char>) -> Option<int>
    decreases s.len(),
{
    if s.len() < 2 {
        None
    } else if s[s.len() - 2] == ' ' && s[s.len() - 1] == '(' {
        Some(s.len() - 2)
    } else {
        find_last_open(s.drop_last())
    }
}

/// Peels an optional `:line` or `:line:column` off the end of a location.
///
/// The location is cut at its last two colons, from the right, into at most
/// three pieces; the two trailing ones are numbers only if they parse.
pub open spec fn split_position(location: Seq<char>) -> (Seq<char>, i32, i32) {
    match find_last(location, ':') {
        None => (location, -1i32, -1i32),
        Some(last) => {
            let tail = location.subrange(last + 1, location.len() as int);
            let head = location.subrange(0, last);
            match find_last(head, ':') {
                Some(before) => {
                    let middle = head.subrange(before + 1, head.len() as int);
                    let front = head.subrange(0, before);
                    if parse_i32(tail) is Some && parse_i32(middle) is Some {
                        (front, parse_i32(middle)->0, parse_i32(tail)->0)
                    } else if parse_i32(tail) is Some {
                        (head, parse_i32(tail)->0, -1i32)
                    } else {
                        (location, -1i32, -1i32)
                    }
                },
                None => {
                    if parse_i32(tail) is Some {
                        (head, parse_i32(tail)->0, -1i32)
                    } else {
                        (location, -1i32, -1i32)
                    }
                },
            }
        },
    }
}

/// Splits `scheme:package/path[:line[:column]]` into scheme, package, package
/// path, line and column.
///
/// The package is only pulled out for the `dart:` and `package:` schemes; any
/// other keeps its whole path and a package of `<unknown>`.
pub open spec fn split_location(location: Seq<char>) -> (
    Seq<char>,
    Seq<char>,
    Seq<char>,
    i32,
    i32,
) {
    let (uri, line, column) = split_position(location);
    let (scheme, path) = match find_first(uri, ':') {
        Some(i) => (uri.subrange(0, i), uri.subrange(i + 1, uri.len() as int)),
        None => (Seq::<char>::empty(), uri),
    };
    if scheme == "dart"@ || scheme == "package"@ {
        let trimmed = path.subrange(leading_count(path, '/'), path.len() as int);
        match find_first(trimmed, '/') {
            Some(j) => (
                scheme,
                trimmed.subrange(0, j),
                trimmed.subrange(j + 1, trimmed.len() as int),
                line,
                column,
            ),
            None => (scheme, trimmed, Seq::empty(), line, column),
        }
    } else {
        (scheme, "<unknown>"@, path, line, column)
    }
}

/// Splits the member part of a frame into class, method and whether it is a
/// constructor.
///
/// `.<anonymous closure>` is taken out first: a closure inside a method is
/// that method. A member beginning `new ` is a constructor of the class that
/// follows, with a dot meaning a named constructor; otherwise a dot separates
/// class from method.
pub open spec fn split_member(member: Seq<char>) -> (Seq<char>, Seq<char>, bool) {
    let m = remove_all(member, ".<anonymous closure>"@);
    if starts_with(m, "new "@) {
        let after = m.subrange("new "@.len() as int, m.len() as int);
        if after.len() == 0 {
            ("<unknown>"@, Seq::empty(), true)
        } else {
            match find_first(after, '.') {
                Some(i) => (after.subrange(0, i), after.subrange(i + 1, after.len() as int), true),
                None => (after, Seq::empty(), true),
            }
        }
    } else if m == "new"@ {
        ("<unknown>"@, Seq::empty(), true)
    } else {
        match find_first(m, '.') {
            Some(i) => (m.subrange(0, i), m.subrange(i + 1, m.len() as int), false),
            None => (Seq::empty(), m, false),
        }
    }
}

/// The frame a printed line `#<number><spaces><member> (<location>)` stands
/// for, or `None` when the line has another shape.
pub open spec fn parse_frame(line: Seq<char>) -> Option<FrameView> {
    if line == "<asynchronous suspension>"@ {
        Some(suspension_frame())
    } else if line == "..."@ {
        Some(elision_frame())
    } else if line.len() == 0 || line[0] != '#' {
        None
    } else {
        let rest = line.drop_first();
        let digits = leading_digits(rest);
        if digits == rest.len() {
            None
        } else {
            match parse_i32(rest.subrange(0, digits)) {
                None => None,
                Some(number) => {
                    let body = trim_start(rest.subrange(digits, rest.len() as int));
                    match find_last_open(body) {
                        None => None,
                        Some(open) => {
                            let member = body.subrange(0, open);
                            let tail = body.subrange(open + 2, body.len() as int);
                            if tail.len() == 0 || tail.last() != ')' {
                                None
                            } else {
                                let location = tail.drop_last();
                                let (class_name, method, is_constructor) = split_member(member);
                                let (scheme, package, package_path, line_number, column) =
                                    split_location(location);
                                Some(
                                    FrameView {
                                        source: line,
                                        number,
                                        column,
                                        line: line_number,
                                        package_scheme: scheme,
                                        package,
                                        package_path,
                                        class_name,
                                        method,
                                        is_constructor,
                                    },
                                )
                            }
                        },
                    }
                },
            }
        }
    }
}

/// **A frame can always be shown again exactly as it arrived**: whatever a
/// line parses to keeps the line itself as its source.
pub proof fn lemma_parsed_frame_keeps_its_line(line: Seq<char>)
    ensures
        parse_frame(line) matches Some(frame) ==> frame.source == line,
{
}

/// Whether a line is empty once trimmed.
pub open spec fn is_blank(line: Seq<char>) -> bool {
    forall|i: int| 0 <= i < line.len() ==> is_whitespace(#[trigger] line[i])
}

/// std's `str::lines` takes a `\r` off a line only when a `\n` followed it.
pub open spec fn strip_carriage_return(line: Seq<char>) -> Seq<char> {
    if line.len() > 0 && line.last() == '\r' {
        line.drop_last()
    } else {
        line
    }
}

/// The frames of one line: none for a blank line or one that does not parse.
pub open spec fn frames_of_line(line: Seq<char>) -> Seq<FrameView> {
    if is_blank(line) {
        Seq::empty()
    } else {
        match parse_frame(line) {
            Some(frame) => seq![frame],
            None => Seq::empty(),
        }
    }
}

/// The frames of the lines of `text`, split as std's `str::lines` splits.
pub open spec fn frames_of_lines(text: Seq<char>) -> Seq<FrameView>
    decreases text.len(),
{
    if text.len() == 0 {
        Seq::empty()
    } else {
        match find_first(text, '\n') {
            None => frames_of_line(text),
            Some(i) => {
                proof {
                    lemma_find_first_bounds(text, '\n');
                }
                frames_of_line(strip_carriage_return(text.subrange(0, i))) + frames_of_lines(
                    text.subrange(i + 1, text.len() as int),
                )
            },
        }
    }
}

/// The views of a run of frames.
pub open spec fn views(frames: Seq<StackFrame>) -> Seq<FrameView> {
    frames.map_values(|f: StackFrame| f@)
}

fn leading_digits_in(v: &[char], from: usize, to: usize) -> (r: usize)
    requires
        from <= to <= v@.len(),
    ensures
        from <= r <= to,
        leading_digits(v@.subrange(from as int, to as int)) == r - from,
{
    let mut i = from;
    while i < to && '0' <= v[i] && v[i] <= '9'
        invariant
            from <= i <= to,
            to <= v@.len(),
            leading_digits(v@.subrange(from as int, to as int)) == (i - from) + leading_digits(
                v@.subrange(i as int, to as int),
            ),
        decreases to - i,
    {
        proof {
            assert(v@.subrange(i as int, to as int).drop_first() =~= v@.subrange(
                i + 1,
                to as int,
            ));
        }
        i = i + 1;
    }
    i
}

fn find_last_open_in(v: &[char], from: usize, to: usize) -> (r: Option<usize>)
    requires
        from <= to <= v@.len(),
    ensures
        match r {
            Some(i) => from <= i && i + 2 <= to && find_last_open(
                v@.subrange(from as int, to as int),
            ) == Some(i - from),
            None => find_last_open(v@.subrange(from as int, to as int)) == None::<int>,
        },
{
    let mut end = to;
    while end - from >= 2
        invariant
            from <= end <= to,
            to <= v@.len(),
            find_last_open(v@.subrange(from as int, to as int)) == find_last_open(
                v@.subrange(from as int, end as int),
            ),
        decreases end,
    {
        if v[end - 2] == ' ' && v[end - 1] == '(' {
            return Some(end - 2);
        }
        proof {
            assert(v@.subrange(from as int, end as int).drop_last() =~= v@.subrange(
                from as int,
                end - 1,
            ));
        }
        end = end - 1;
    }
    None
}

/// The line number and column peeled off `v[from..to]`, and where the uri
/// before them ends.
fn split_position_in(v: &[char], from: usize, to: usize) -> (r: (usize, i32, i32))
    requires
        from <= to <= v@.len(),
    ensures
        from <= r.0 <= to,
        split_position(v@.subrange(from as int, to as int)) == (
            v@.subrange(from as int, r.0 as int),
            r.1,
            r.2,
        ),
{
    let ghost location = v@.subrange(from as int, to as int);
    match find_last_in(v, from, to, ':') {
        None => (to, -1, -1),
        Some(last) => {
            let tail = parse_i32_range(v, last + 1, to);
            proof {
                assert(location.subrange(last - from + 1, location.len() as int) =~= v@.subrange(
                    last + 1,
                    to as int,
                ));
                assert(location.subrange(0, last - from) =~= v@.subrange(from as int, last as int));
            }
            match find_last_in(v, from, last, ':') {
                Some(before) => {
                    let middle = parse_i32_range(v, before + 1, last);
                    proof {
                        let head = v@.subrange(from as int, last as int);
                        assert(head.subrange(before - from + 1, head.len() as int) =~= v@.subrange(
                            before + 1,
                            last as int,
                        ));
                        assert(head.subrange(0, before - from) =~= v@.subrange(
                            from as int,
                            before as int,
                        ));
                    }
                    match (tail, middle) {
                        (Some(column), Some(line)) => (before, line, column),
                        (Some(line), None) => (last, line, -1),
                        _ => (to, -1, -1),
                    }
                },
                None => match tail {
                    Some(line) => (last, line, -1),
                    None => (to, -1, -1),
                },
            }
        },
    }
}

fn literal(s: &str) -> (v: Vec<char>)
    ensures
        v@ == s@,
{
    chars_of(s)
}

/// Scheme, package, package path, line and column of `v[from..to]`.
fn split_location_in(v: &[char], from: usize, to: usize) -> (r: (
    String,
    String,
    String,
    i32,
    i32,
))
    requires
        from <= to <= v@.len(),
    ensures
        split_location(v@.subrange(from as int, to as int)) == (r.0@, r.1@, r.2@, r.3, r.4),
{
    let (uri_end, line, column) = split_position_in(v, from, to);
    let ghost uri = v@.subrange(from as int, uri_end as int);
    let (scheme_end, path_start) = match find_first_in(v, from, uri_end, ':') {
        Some(i) => (i, i + 1),
        None => (from, from),
    };
    proof {
        if scheme_end > from || path_start > from {
            assert(uri.subrange(0, scheme_end - from) =~= v@.subrange(
                from as int,
                scheme_end as int,
            ));
            assert(uri.subrange(scheme_end - from + 1, uri.len() as int) =~= v@.subrange(
                path_start as int,
                uri_end as int,
            ));
        } else {
            assert(v@.subrange(from as int, scheme_end as int) =~= Seq::<char>::empty());
        }
    }
    let scheme = string_of_range(v, from, scheme_end);
    let dart = literal("dart");
    let package_word = literal("package");
    let scheme_chars = chars_of(scheme.as_str());
    if same_chars(&scheme_chars, &dart) || same_chars(&scheme_chars, &package_word) {
        let start = skip_char(v, path_start, uri_end, '/');
        proof {
            let path = v@.subrange(path_start as int, uri_end as int);
            assert(path.subrange(leading_count(path, '/'), path.len() as int) =~= v@.subrange(
                start as int,
                uri_end as int,
            ));
        }
        match find_first_in(v, start, uri_end, '/') {
            Some(j) => {
                proof {
                    let trimmed = v@.subrange(start as int, uri_end as int);
                    assert(trimmed.subrange(0, j - start) =~= v@.subrange(start as int, j as int));
                    assert(trimmed.subrange(j - start + 1, trimmed.len() as int) =~= v@.subrange(
                        j + 1,
                        uri_end as int,
                    ));
                }
                (
                    scheme,
                    string_of_range(v, start, j),
                    string_of_range(v, j + 1, uri_end),
                    line,
                    column,
                )
            },
            None => (scheme, string_of_range(v, start, uri_end), String::new(), line, column),
        }
    } else {
        (scheme, owned("<unknown>"), string_of_range(v, path_start, uri_end), line, column)
    }
}

/// Class, method and whether it is a constructor, for the member
/// `v[from..to]`.
fn split_member_in(v: &[char], from: usize, to: usize) -> (r: (String, String, bool))
    requires
        from <= to <= v@.len(),
    ensures
        split_member(v@.subrange(from as int, to as int)) == (r.0@, r.1@, r.2),
{
    let closure = literal(".<anonymous closure>");
    let m = remove_all_in(v, from, to, &closure);
    let new_space = literal("new ");
    let new_word = literal("new");
    proof {
        assert(m@.subrange(0, m@.len() as int) =~= m@);
    }
    if new_space.len() <= m.len() && matches_at(&m, 0, &new_space) {
        let start = new_space.len();
        if start == m.len() {
            return (owned("<unknown>"), String::new(), true);
        }
        match find_first_in(&m, start, m.len(), '.') {
            Some(i) => {
                proof {
                    let after = m@.subrange(start as int, m@.len() as int);
                    assert(after.subrange(0, i - start) =~= m@.subrange(start as int, i as int));
                    assert(after.subrange(i - start + 1, after.len() as int) =~= m@.subrange(
                        i + 1,
                        m@.len() as int,
                    ));
                }
                (string_of_range(&m, start, i), string_of_range(&m, i + 1, m.len()), true)
            },
            None => (string_of_range(&m, start, m.len()), String::new(), true),
        }
    } else if same_chars(&m, &new_word) {
        (owned("<unknown>"), String::new(), true)
    } else {
        match find_first_in(&m, 0, m.len(), '.') {
            Some(i) => {
                proof {
                    assert(m@.subrange(0, i as int) =~= m@.subrange(0, i as int));
                }
                (string_of_range(&m, 0, i), string_of_range(&m, i + 1, m.len()), false)
            },
            None => (String::new(), string_of(&m), false),
        }
    }
}

/// The frame `v[from..to]` stands for, as `parse_frame` reads it.
fn parse_frame_in(v: &[char], from: usize, to: usize) -> (r: Option<StackFrame>)
    requires
        from <= to <= v@.len(),
    ensures
        match r {
            Some(frame) => parse_frame(v@.subrange(from as int, to as int)) == Some(frame@),
            None => parse_frame(v@.subrange(from as int, to as int)) is None,
        },
{
    let ghost line = v@.subrange(from as int, to as int);
    let line_chars = string_of_range(v, from, to);
    let line_vec = chars_of(line_chars.as_str());
    let suspension = literal("<asynchronous suspension>");
    if same_chars(&line_vec, &suspension) {
        return Some(StackFrame::asynchronous_suspension());
    }
    let dots = literal("...");
    if same_chars(&line_vec, &dots) {
        return Some(StackFrame::stack_overflow_elision());
    }
    if from == to || v[from] != '#' {
        return None;
    }
    let rest = from + 1;
    proof {
        assert(line.drop_first() =~= v@.subrange(rest as int, to as int));
    }
    let digits_end = leading_digits_in(v, rest, to);
    if digits_end == to {
        return None;
    }
    let number = match parse_i32_range(v, rest, digits_end) {
        Some(n) => n,
        None => {
            proof {
                assert(line.drop_first().subrange(0, digits_end - rest) =~= v@.subrange(
                    rest as int,
                    digits_end as int,
                ));
            }
            return None;
        },
    };
    proof {
        assert(line.drop_first().subrange(0, digits_end - rest) =~= v@.subrange(
            rest as int,
            digits_end as int,
        ));
        assert(line.drop_first().subrange(digits_end - rest, line.drop_first().len() as int)
            =~= v@.subrange(digits_end as int, to as int));
    }
    let (body_start, _) = trim_bounds(v, digits_end, to);
    let open = match find_last_open_in(v, body_start, to) {
        Some(i) => i,
        None => return None,
    };
    let tail_start = open + 2;
    if tail_start == to || v[to - 1] != ')' {
        proof {
            let body = v@.subrange(body_start as int, to as int);
            let tail = body.subrange(open - body_start + 2, body.len() as int);
            if tail.len() > 0 {
                assert(tail.last() == v@[to - 1]);
            }
        }
        return None;
    }
    let (class_name, method, is_constructor) = split_member_in(v, body_start, open);
    let (scheme, package, package_path, line_number, column) = split_location_in(
        v,
        tail_start,
        to - 1,
    );
    proof {
        let body = v@.subrange(body_start as int, to as int);
        assert(body.subrange(0, open - body_start) =~= v@.subrange(
            body_start as int,
            open as int,
        ));
        let tail = body.subrange(open - body_start + 2, body.len() as int);
        assert(tail.last() == v@[to - 1]);
        assert(tail.drop_last() =~= v@.subrange(tail_start as int, to - 1));
    }
    Some(
        StackFrame {
            source: line_chars,
            number,
            column,
            line: line_number,
            package_scheme: scheme,
            package,
            package_path,
            class_name,
            method,
            is_constructor,
        },
    )
}

impl StackFrame {
    /// The marker the runtime prints where a stack crosses an `await`.
    ///
    /// Not a real frame: the frames above and below it are from different
    /// moments in time. Keeping it as a frame is what lets a filter see the
    /// gap rather than silently joining the two halves.
    pub fn asynchronous_suspension() -> (r: StackFrame)
        ensures
            r@ == suspension_frame(),
    {
        StackFrame {
            source: owned("<asynchronous suspension>"),
            number: -1,
            column: -1,
            line: -1,
            method: owned("asynchronous suspension"),
            package_scheme: String::new(),
            package: String::new(),
            package_path: String::new(),
            class_name: String::new(),
            is_constructor: false,
        }
    }

    /// The `...` the runtime prints in place of the thousands of frames a
    /// stack overflow produced.
    pub fn stack_overflow_elision() -> (r: StackFrame)
        ensures
            r@ == elision_frame(),
    {
        StackFrame {
            source: owned("..."),
            number: -1,
            column: -1,
            line: -1,
            method: owned("..."),
            package_scheme: String::new(),
            package: String::new(),
            package_path: String::new(),
            class_name: String::new(),
            is_constructor: false,
        }
    }

    /// One printed line, taken apart; `None` when the line is not a frame.
    ///
    /// The shape parsed is `#3      Foo.bar (package:baz/qux.dart:12:34)`.
    /// Line and column are optional and become `-1` when absent, the same "no
    /// position" the two synthetic frames use.
    pub fn from_stack_trace_line(line: &str) -> (r: Option<StackFrame>)
        ensures
            match r {
                Some(frame) => parse_frame(line@) == Some(frame@),
                None => parse_frame(line@) is None,
            },
    {
        let v = chars_of(line);
        let r = parse_frame_in(&v, 0, v.len());
        proof {
            assert(v@.subrange(0, v@.len() as int) =~= line@);
        }
        r
    }

    /// Every frame of a printed trace.
    ///
    /// The trace is trimmed and cut into lines; blank lines are dropped, and a
    /// line that does not parse is dropped rather than failing the whole
    /// trace, so one unparseable line costs the reader only itself.
    pub fn from_stack_string(stack: &str) -> (r: Vec<StackFrame>)
        ensures
            views(r@) == frames_of_lines(trim(stack@)),
    {
        let v = chars_of(stack);
        let (start, end) = trim_bounds(&v, 0, v.len());
        proof {
            assert(v@.subrange(0, v@.len() as int) =~= stack@);
        }
        let mut out: Vec<StackFrame> = Vec::new();
        let mut pos = start;
        while pos < end
            invariant
                start <= pos <= end,
                end <= v@.len(),
                frames_of_lines(trim(stack@)) == views(out@) + frames_of_lines(
                    v@.subrange(pos as int, end as int),
                ),
            decreases end - pos,
        {
            let (line_end, next) = next_line(&v, pos, end);
            let found = frame_of_line_in(&v, pos, line_end);
            let ghost before = out@;
            match found {
                Some(frame) => {
                    out.push(frame);
                },
                None => {},
            }
            proof {
                lemma_views_push(before, out@, found);
                assert(views(out@) + frames_of_lines(v@.subrange(next as int, end as int))
                    =~= views(before) + frames_of_lines(v@.subrange(pos as int, end as int)));
            }
            pos = next;
        }
        proof {
            assert(views(out@) + frames_of_lines(v@.subrange(pos as int, end as int)) =~= views(
                out@,
            ));
        }
        out
    }
}

/// An optional frame as a run of at most one frame.
pub open spec fn option_frames(found: Option<StackFrame>) -> Seq<FrameView> {
    match found {
        Some(frame) => seq![frame@],
        None => Seq::empty(),
    }
}

proof fn lemma_views_push(before: Seq<StackFrame>, after: Seq<StackFrame>, found: Option<StackFrame>)
    requires
        after == (match found {
            Some(frame) => before.push(frame),
            None => before,
        }),
    ensures
        views(after) == views(before) + option_frames(found),
{
    assert(views(after) =~= views(before) + option_frames(found));
}

/// The line starting at `pos`, and where the line after it starts.
fn next_line(v: &[char], pos: usize, end: usize) -> (r: (usize, usize))
    requires
        pos < end <= v@.len(),
    ensures
        pos <= r.0 <= r.1 <= end,
        r.1 > pos,
        frames_of_lines(v@.subrange(pos as int, end as int)) == frames_of_line(
            v@.subrange(pos as int, r.0 as int),
        ) + frames_of_lines(v@.subrange(r.1 as int, end as int)),
{
    let ghost text = v@.subrange(pos as int, end as int);
    match find_first_in(v, pos, end, '\n') {
        Some(i) => {
            let stripped = if i > pos && v[i - 1] == '\r' {
                i - 1
            } else {
                i
            };
            proof {
                assert(text.subrange(0, i - pos) =~= v@.subrange(pos as int, i as int));
                assert(text.subrange(i - pos + 1, text.len() as int) =~= v@.subrange(
                    i + 1,
                    end as int,
                ));
                let raw = v@.subrange(pos as int, i as int);
                if raw.len() > 0 && raw.last() == '\r' {
                    assert(raw.drop_last() =~= v@.subrange(pos as int, stripped as int));
                } else {
                    assert(raw =~= v@.subrange(pos as int, stripped as int));
                }
            }
            (stripped, i + 1)
        },
        None => {
            proof {
                assert(v@.subrange(end as int, end as int) =~= Seq::<char>::empty());
                assert(frames_of_line(text) + Seq::<FrameView>::empty() =~= frames_of_line(text));
            }
            (end, end)
        },
    }
}

/// The frame of the line `v[from..to]`, if it is neither blank nor unparseable.
fn frame_of_line_in(v: &[char], from: usize, to: usize) -> (r: Option<StackFrame>)
    requires
        from <= to <= v@.len(),
    ensures
        option_frames(r) == frames_of_line(v@.subrange(from as int, to as int)),
{
    let ghost line = v@.subrange(from as int, to as int);
    let first_solid = skip_whitespace(v, from, to);
    if first_solid < to {
        proof {
            assert(line[first_solid - from] == v@[first_solid as int]);
            assert(!is_blank(line));
        }
        parse_frame_in(v, from, to)
    } else {
        proof {
            assert forall|k: int| 0 <= k < line.len() implies is_whitespace(#[trigger] line[k]) by {
                assert(line[k] == v@[from + k]);
            }
        }
        None
    }
}

/// A pattern that matches a frame.
///
/// Only three of a frame's fields are compared -- package, class and method --
/// because a filter is about *which code* a frame is in, and the line and
/// column change with every edit to that code.
#[derive(Clone, Debug, PartialEq, Eq)]
pub struct PartialStackFrame {
    pub package: String,
    pub class_name: String,
    pub method: String,
}

/// A partial frame as values.
pub struct PartialView {
    pub package: Seq<char>,
    pub class_name: Seq<char>,
    pub method: Seq<char>,
}

impl View for PartialStackFrame {
    type V = PartialView;

    open spec fn view(&self) -> PartialView {
        PartialView { package: self.package@, class_name: self.class_name@, method: self.method@ }
    }
}

/// `scheme:package/path`, the text a partial frame's package is looked for in.
pub open spec fn package_text(frame: FrameView) -> Seq<char> {
    frame.package_scheme + seq![':'] + frame.package + seq!['/'] + frame.package_path
}

/// Whether `pattern` matches `frame`: its package occurs anywhere in
/// `scheme:package/path`, and its class and method are equal to the frame's.
pub open spec fn partial_matches(pattern: PartialView, frame: FrameView) -> bool {
    &&& contains_seq(package_text(frame), pattern.package)
    &&& frame.method == pattern.method
    &&& frame.class_name == pattern.class_name
}

impl PartialStackFrame {
    pub fn new(package: &str, class_name: &str, method: &str) -> (r: PartialStackFrame)
        ensures
            r@ == (PartialView { package: package@, class_name: class_name@, method: method@ }),
    {
        PartialStackFrame {
            package: owned(package),
            class_name: owned(class_name),
            method: owned(method),
        }
    }

    /// The pattern of the marker frame where a stack crosses an `await`.
    pub fn asynchronous_suspension() -> (r: PartialStackFrame)
        ensures
            r@ == (PartialView {
                package: Seq::empty(),
                class_name: Seq::empty(),
                method: "asynchronous suspension"@,
            }),
    {
        proof {
            reveal_strlit("");
            assert(""@ =~= Seq::<char>::empty());
        }
        PartialStackFrame::new("", "", "asynchronous suspension")
    }

    /// Whether this pattern matches `frame`.
    ///
    /// The package is a pattern matched anywhere in `scheme:package/path`,
    /// while the class and method must be equal. That asymmetry is what lets
    /// one filter name a whole library while still pointing at one method
    /// inside it.
    pub fn matches(&self, frame: &StackFrame) -> (r: bool)
        ensures
            r == partial_matches(self@, frame@),
    {
        let mut whole = chars_of(frame.package_scheme.as_str());
        whole.push(':');
        let package = chars_of(frame.package.as_str());
        let mut i: usize = 0;
        let ghost start = whole@;
        while i < package.len()
            invariant
                i <= package@.len(),
                whole@ == start + package@.subrange(0, i as int),
            decreases package@.len() - i,
        {
            whole.push(package[i]);
            i = i + 1;
            assert(whole@ =~= start + package@.subrange(0, i as int));
        }
        whole.push('/');
        let path = chars_of(frame.package_path.as_str());
        let ghost middle = whole@;
        let mut k: usize = 0;
        while k < path.len()
            invariant
                k <= path@.len(),
                whole@ == middle + path@.subrange(0, k as int),
            decreases path@.len() - k,
        {
            whole.push(path[k]);
            k = k + 1;
            assert(whole@ =~= middle + path@.subrange(0, k as int));
        }
        proof {
            assert(package@.subrange(0, package@.len() as int) =~= package@);
            assert(path@.subrange(0, path@.len() as int) =~= path@);
            assert(whole@ =~= package_text(frame@));
        }
        let pattern = chars_of(self.package.as_str());
        contains_chars(&whole, &pattern) && frame.method == self.method && frame.class_name
            == self.class_name
    }
}

/// Something that marks frames as not worth reading.
///
/// A filter does not remove frames. It writes a *reason* beside each one it
/// recognises, and the printer collapses a run of equal reasons into a single
/// line saying what was left out. A reader who needs the detail can still be
/// told how much was hidden and why.
pub trait StackFilter {
    /// Writes into `reasons` in place; `reasons[i]` is the reason for
    /// `frames[i]`.
    fn filter(&self, frames: &[StackFrame], reasons: &mut [Option<String>])
        ensures
            final(reasons)@.len() == old(reasons)@.len(),
    ;
}

/// Collapses a run of frames that keep coming round.
///
/// The case it exists for is a build error inside a widget that rebuilds its
/// own subtree: the same handful of framework frames appears dozens of times,
/// and none of the repeats tells the reader anything the first did not.
#[derive(Clone, Debug, PartialEq, Eq)]
pub struct RepetitiveStackFrameFilter {
    pub frames: Vec<PartialStackFrame>,
    pub replacement: String,
}

/// The views of a run of partial frames.
pub open spec fn pattern_views(patterns: Seq<PartialStackFrame>) -> Seq<PartialView> {
    patterns.map_values(|p: PartialStackFrame| p@)
}

/// Whether the patterns match the frames starting at `at`, one for one.
pub open spec fn window_matches(patterns: Seq<PartialView>, frames: Seq<FrameView>, at: int) -> bool {
    &&& 0 <= at
    &&& at + patterns.len() <= frames.len()
    &&& forall|j: int| 0 <= j < patterns.len() ==> partial_matches(patterns[j], #[trigger] frames[at + j])
}

/// The positions a repetitive filter marks, scanning from `index`.
///
/// The scan tests each window that starts before `frames.len() -
/// patterns.len()`, so a window ending exactly at the last frame is never
/// tested. A matched window is marked whole and stepped over; an unmatched
/// one moves the scan on by one frame.
pub open spec fn collapsed_from(patterns: Seq<PartialView>, frames: Seq<FrameView>, index: int) -> Set<
    int,
>
    decreases frames.len() - index,
{
    if patterns.len() == 0 || index < 0 || index + patterns.len() >= frames.len() {
        Set::empty()
    } else if window_matches(patterns, frames, index) {
        Set::new(|k: int| index <= k < index + patterns.len()).union(
            collapsed_from(patterns, frames, index + patterns.len()),
        )
    } else {
        collapsed_from(patterns, frames, index + 1)
    }
}

proof fn lemma_collapsed_from_later(patterns: Seq<PartialView>, frames: Seq<FrameView>, index: int, k: int)
    requires
        collapsed_from(patterns, frames, index).contains(k),
    ensures
        k >= index,
    decreases frames.len() - index,
{
    if patterns.len() == 0 || index < 0 || index + patterns.len() >= frames.len() {
    } else if window_matches(patterns, frames, index) {
        if !(index <= k < index + patterns.len()) {
            lemma_collapsed_from_later(patterns, frames, index + patterns.len(), k);
        }
    } else {
        lemma_collapsed_from_later(patterns, frames, index + 1, k);
    }
}

impl RepetitiveStackFrameFilter {
    pub fn new(frames: Vec<PartialStackFrame>, replacement: &str) -> (r: RepetitiveStackFrameFilter)
        ensures
            r.frames@ == frames@,
            r.replacement@ == replacement@,
    {
        RepetitiveStackFrameFilter { frames, replacement: owned(replacement) }
    }

    /// How many frames the repeating run is.
    pub fn num_frames(&self) -> (r: usize)
        ensures
            r == self.frames@.len(),
    {
        self.frames.len()
    }

    fn matches_at(&self, frames: &[StackFrame], at: usize) -> (r: bool)
        ensures
            r == window_matches(pattern_views(self.frames@), views(frames@), at as int),
    {
        let count = self.frames.len();
        let total = frames.len();
        if at > total || count > total - at {
            return false;
        }
        let mut j: usize = 0;
        while j < count
            invariant
                total == frames@.len(),
                count == self.frames@.len(),
                at + count <= frames@.len(),
                j <= count,
                forall|i: int|
                    0 <= i < j ==> partial_matches(
                        pattern_views(self.frames@)[i],
                        #[trigger] views(frames@)[at + i],
                    ),
            decreases count - j,
        {
            if !self.frames[j].matches(&frames[at + j]) {
                proof {
                    assert(pattern_views(self.frames@)[j as int] == self.frames@[j as int]@);
                    assert(views(frames@)[at + j] == frames@[at + j]@);
                }
                return false;
            }
            j = j + 1;
        }
        true
    }
}

impl StackFilter for RepetitiveStackFrameFilter {
    /// Marks every window of frames the patterns match, one reason per frame.
    ///
    /// The scan stops short of the last possible window: it runs while
    /// `index + patterns < frames`, so a repetition that ends exactly at the
    /// final frame is never tested and never collapsed.
    fn filter(&self, frames: &[StackFrame], reasons: &mut [Option<String>])
        ensures
            forall|k: int|
                0 <= k < old(reasons)@.len() ==> if collapsed_from(
                    pattern_views(self.frames@),
                    views(frames@),
                    0,
                ).contains(k) {
                    final(reasons)@[k] matches Some(reason) && reason@ == self.replacement@
                } else {
                    final(reasons)@[k] == old(reasons)@[k]
                },
    {
        let count = self.num_frames();
        if count == 0 || frames.len() < count {
            return;
        }
        let ghost patterns = pattern_views(self.frames@);
        let ghost fs = views(frames@);
        let total = frames.len();
        let mut index: usize = 0;
        while index < total - count
            invariant
                total == frames@.len(),
                index <= total,
                count <= total,
                count == patterns.len(),
                count > 0,
                patterns == pattern_views(self.frames@),
                fs == views(frames@),
                reasons@.len() == old(reasons)@.len(),
                forall|k: int|
                    k >= index ==> (collapsed_from(patterns, fs, 0).contains(k) <==> collapsed_from(
                        patterns,
                        fs,
                        index as int,
                    ).contains(k)),
                forall|k: int|
                    0 <= k < reasons@.len() ==> if k < index && collapsed_from(
                        patterns,
                        fs,
                        0,
                    ).contains(k) {
                        reasons@[k] matches Some(reason) && reason@ == self.replacement@
                    } else {
                        reasons@[k] == old(reasons)@[k]
                    },
            decreases frames@.len() - index,
        {
            if self.matches_at(frames, index) {
                let mut k = index;
                let end = index + count;
                while k < end && k < reasons.len()
                    invariant
                        end == index + count,
                        index <= k <= index + count,
                        reasons@.len() == old(reasons)@.len(),
                        window_matches(patterns, fs, index as int),
                        index + count < fs.len(),
                        count == patterns.len(),
                        count > 0,
                        forall|m: int|
                            m >= index ==> (collapsed_from(patterns, fs, 0).contains(m)
                                <==> collapsed_from(patterns, fs, index as int).contains(m)),
                        forall|m: int|
                            0 <= m < reasons@.len() ==> if (m < index && collapsed_from(
                                patterns,
                                fs,
                                0,
                            ).contains(m)) || (index <= m < k) {
                                reasons@[m] matches Some(reason) && reason@ == self.replacement@
                            } else {
                                reasons@[m] == old(reasons)@[m]
                            },
                    decreases index + count - k,
                {
                    let reason = self.replacement.clone();
                    reasons[k] = Some(reason);
                    k = k + 1;
                }
                proof {
                    let next = index + count;
                    assert forall|m: int| m >= next implies (collapsed_from(patterns, fs, 0).contains(m)
                        <==> collapsed_from(patterns, fs, next as int).contains(m)) by {}
                    assert forall|m: int| index <= m < next implies collapsed_from(patterns, fs, 0).contains(
                        m,
                    ) by {
                        assert(collapsed_from(patterns, fs, index as int).contains(m));
                    }
                }
                index = index + count;
            } else {
                proof {
                    let next = index + 1;
                    assert forall|m: int| m >= next implies (collapsed_from(patterns, fs, 0).contains(m)
                        <==> collapsed_from(patterns, fs, next as int).contains(m)) by {}
                    if collapsed_from(patterns, fs, index as int).contains(index as int) {
                        lemma_collapsed_from_later(patterns, fs, next as int, index as int);
                    }
                }
                index = index + 1;
            }
        }
        proof {
            assert forall|k: int| k >= index implies !collapsed_from(patterns, fs, index as int).contains(
                k,
            ) by {}
        }
    }
}

/// The packages and classes removed outright from a trace.
///
/// These are not collapsed with a reason -- they are taken out entirely,
/// because they are the machinery that got the error to the handler rather
/// than anything about the error.
pub const REMOVED_PACKAGES_AND_CLASSES: [&'static str; 8] = [
    "dart:async-patch",
    "dart:async",
    "package:stack_trace",
    "class _AssertionError",
    "class _FakeAsync",
    "class _FrameCallbackEntry",
    "class _Timer",
    "class _RawReceivePortImpl",
];

/// Whether `name` is one of the removed packages and classes.
pub open spec fn is_removed_name(name: Seq<char>) -> bool {
    ||| name == "dart:async-patch"@
    ||| name == "dart:async"@
    ||| name == "package:stack_trace"@
    ||| name == "class _AssertionError"@
    ||| name == "class _FakeAsync"@
    ||| name == "class _FrameCallbackEntry"@
    ||| name == "class _Timer"@
    ||| name == "class _RawReceivePortImpl"@
}

/// The removal test is the removal list: a name is removed exactly when it
/// is one of the entries of `REMOVED_PACKAGES_AND_CLASSES`.
pub proof fn lemma_removed_names_are_the_list(name: Seq<char>)
    ensures
        is_removed_name(name) <==> exists|i: int|
            0 <= i < 8 && #[trigger] REMOVED_PACKAGES_AND_CLASSES@[i]@ == name,
{
}

/// A frame is removed exactly when `class ` and its class name, or its
/// `scheme:package`, is an entry of `REMOVED_PACKAGES_AND_CLASSES`.
pub proof fn lemma_uninteresting_frames_are_those_on_the_list(frame: FrameView)
    ensures
        is_uninteresting(frame) <==> exists|i: int|
            0 <= i < 8 && (#[trigger] REMOVED_PACKAGES_AND_CLASSES@[i]@ == "class "@ + frame.class_name
                || REMOVED_PACKAGES_AND_CLASSES@[i]@ == frame.package_scheme + seq![':']
                + frame.package),
{
    lemma_removed_names_are_the_list("class "@ + frame.class_name);
    lemma_removed_names_are_the_list(frame.package_scheme + seq![':'] + frame.package);
}

/// Whether a frame is part of the machinery that delivered an error: its
/// `class <name>` or its `scheme:package` is on the removal list.
pub open spec fn is_uninteresting(frame: FrameView) -> bool {
    is_removed_name("class "@ + frame.class_name) || is_removed_name(
        frame.package_scheme + seq![':'] + frame.package,
    )
}

/// The frames that are not removed, in order.
pub open spec fn interesting_frames(frames: Seq<FrameView>) -> Seq<FrameView>
    decreases frames.len(),
{
    if frames.len() == 0 {
        Seq::empty()
    } else {
        let kept = interesting_frames(frames.drop_last());
        if is_uninteresting(frames.last()) {
            kept
        } else {
            kept.push(frames.last())
        }
    }
}

/// Filtering keeps only interesting frames, keeps every one of them, and
/// keeps them in their order: the kept frames are the interesting ones, and
/// the frames dropped are exactly the uninteresting ones.
pub proof fn lemma_filtering_keeps_the_interesting_frames(frames: Seq<FrameView>)
    ensures
        forall|i: int|
            0 <= i < interesting_frames(frames).len() ==> !is_uninteresting(
                #[trigger] interesting_frames(frames)[i],
            ),
        interesting_frames(frames).len() <= frames.len(),
        (forall|i: int| 0 <= i < frames.len() ==> !is_uninteresting(#[trigger] frames[i]))
            ==> interesting_frames(frames) == frames,
    decreases frames.len(),
{
    if frames.len() > 0 {
        let rest = frames.drop_last();
        lemma_filtering_keeps_the_interesting_frames(rest);
        if forall|i: int| 0 <= i < frames.len() ==> !is_uninteresting(#[trigger] frames[i]) {
            assert forall|i: int| 0 <= i < rest.len() implies !is_uninteresting(
                #[trigger] rest[i],
            ) by {
                assert(rest[i] == frames[i]);
            }
            assert(!is_uninteresting(frames[frames.len() - 1]));
            assert(rest.push(frames.last()) =~= frames);
        }
    }
}

fn removed_name(name: &[char]) -> (r: bool)
    ensures
        r == is_removed_name(name@),
{
    same_chars(name, &chars_of("dart:async-patch")) || same_chars(name, &chars_of("dart:async"))
        || same_chars(name, &chars_of("package:stack_trace")) || same_chars(
        name,
        &chars_of("class _AssertionError"),
    ) || same_chars(name, &chars_of("class _FakeAsync")) || same_chars(
        name,
        &chars_of("class _FrameCallbackEntry"),
    ) || same_chars(name, &chars_of("class _Timer")) || same_chars(
        name,
        &chars_of("class _RawReceivePortImpl"),
    )
}

fn append_chars(v: &mut Vec<char>, tail: &[char])
    ensures
        final(v)@ == old(v)@ + tail@,
{
    let ghost start = v@;
    let mut i: usize = 0;
    while i < tail.len()
        invariant
            i <= tail@.len(),
            v@ == start + tail@.subrange(0, i as int),
        decreases tail@.len() - i,
    {
        v.push(tail[i]);
        i = i + 1;
        assert(v@ =~= start + tail@.subrange(0, i as int));
    }
    assert(tail@.subrange(0, tail@.len() as int) =~= tail@);
}

fn uninteresting(frame: &StackFrame) -> (r: bool)
    ensures
        r == is_uninteresting(frame@),
{
    let mut class_name = chars_of("class ");
    append_chars(&mut class_name, &chars_of(frame.class_name.as_str()));
    let mut package = chars_of(frame.package_scheme.as_str());
    package.push(':');
    append_chars(&mut package, &chars_of(frame.package.as_str()));
    proof {
        assert(package@ =~= frame.package_scheme@ + seq![':'] + frame.package@);
    }
    removed_name(&class_name) || removed_name(&package)
}

/// Takes the machinery that delivered an error out of a trace.
///
/// Returns the frames worth keeping, in order, and how many were dropped.
pub fn remove_uninteresting_frames(frames: Vec<StackFrame>) -> (r: (Vec<StackFrame>, usize))
    ensures
        views(r.0@) == interesting_frames(views(frames@)),
        r.1 == frames@.len() - r.0@.len(),
{
    let mut kept: Vec<StackFrame> = Vec::new();
    let mut skipped: usize = 0;
    let mut frames = frames;
    let ghost all = views(frames@);
    let mut rest: Vec<StackFrame> = Vec::new();
    // Taken from the back, so the kept frames are collected reversed.
    while frames.len() > 0
        invariant
            all.len() == frames@.len() + rest@.len(),
            views(frames@) == all.subrange(0, frames@.len() as int),
            forall|i: int| 0 <= i < rest@.len() ==> #[trigger] rest@[i]@ == all[all.len() - 1 - i],
        decreases frames@.len(),
    {
        let ghost old_frames = frames@;
        let frame = frames.pop().unwrap();
        proof {
            assert(views(frames@) =~= all.subrange(0, frames@.len() as int));
            assert(views(old_frames)[frames@.len() as int] == old_frames[frames@.len() as int]@);
            assert(frame@ == all[frames@.len() as int]);
        }
        rest.push(frame);
    }
    let total = rest.len();
    let mut i: usize = 0;
    while i < total
        invariant
            rest@.len() == total - i,
            total == all.len(),
            i <= total,
            forall|j: int| 0 <= j < rest@.len() ==> #[trigger] rest@[j]@ == all[all.len() - 1 - j],
            views(kept@) == interesting_frames(all.subrange(0, i as int)),
            skipped == i - kept@.len(),
        decreases total - i,
    {
        let frame = rest.pop().unwrap();
        proof {
            assert(frame@ == all[i as int]);
            assert(all.subrange(0, i + 1).drop_last() =~= all.subrange(0, i as int));
            assert(all.subrange(0, i + 1).last() == all[i as int]);
        }
        let ghost before = kept@;
        if uninteresting(&frame) {
            skipped = skipped + 1;
        } else {
            kept.push(frame);
            proof {
                assert(views(kept@) =~= views(before).push(all[i as int]));
            }
        }
        i = i + 1;
    }
    proof {
        assert(all.subrange(0, total as int) =~= all);
    }
    (kept, skipped)
}

} // verus!
