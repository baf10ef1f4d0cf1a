//! The schema script: how its text falls into the statements that set the
//! database up.

use vstd::prelude::*;

verus! {

/// Whether a character is white space.
pub open spec fn is_space(c: char) -> bool {
    let u = c as u32;
    ||| 0x09 <= u <= 0x0d
    ||| u == 0x20
    ||| u == 0x85
    ||| u == 0xa0
    ||| u == 0x1680
    ||| 0x2000 <= u <= 0x200a
    ||| u == 0x2028
    ||| u == 0x2029
    ||| u == 0x202f
    ||| u == 0x205f
    ||| u == 0x3000
}

/// How many characters of white space a text begins with.
pub open spec fn leading_space(s: Seq<char>) -> int
    decreases s.len(),
{
    if s.len() == 0 || !is_space(s[0]) {
        0
    } else {
        1 + leading_space(s.drop_first())
    }
}

/// How long a text is without the white space at its end.
pub open spec fn solid_len(s: Seq<char>) -> int
    decreases s.len(),
{
    if s.len() == 0 || !is_space(s.last()) {
        s.len() as int
    } else {
        solid_len(s.drop_last())
    }
}

/// Whether a text is white space throughout.
pub open spec fn blank(s: Seq<char>) -> bool {
    leading_space(s) == s.len()
}

/// A text without the white space at its ends.
pub open spec fn trimmed(s: Seq<char>) -> Seq<char> {
    if leading_space(s) >= solid_len(s) {
        Seq::empty()
    } else {
        s.subrange(leading_space(s), solid_len(s))
    }
}

/// Whether a text begins with another.
pub open spec fn starts_with(s: Seq<char>, prefix: Seq<char>) -> bool {
    prefix.len() <= s.len() && s.subrange(0, prefix.len() as int) == prefix
}

/// Whether a character is white space.
pub fn is_space_char(c: char) -> (r: bool)
    ensures
        r == is_space(c),
{
    let u: u32 = c as u32;
    (0x09 <= u && u <= 0x0d) || u == 0x20 || u == 0x85 || u == 0xa0 || u == 0x1680 || (0x2000 <= u
        && u <= 0x200a) || u == 0x2028 || u == 0x2029 || u == 0x202f || u == 0x205f || u == 0x3000
}

/// The leading white space is within the text, and what follows it is
/// none.
proof fn lemma_leading_space(s: Seq<char>)
    ensures
        0 <= leading_space(s) <= s.len(),
        leading_space(s) < s.len() ==> !is_space(s[leading_space(s)]),
        forall|i: int| 0 <= i < leading_space(s) ==> is_space(#[trigger] s[i]),
    decreases s.len(),
{
    if s.len() > 0 && is_space(s[0]) {
        lemma_leading_space(s.drop_first());
        assert forall|i: int| 0 <= i < leading_space(s) implies is_space(#[trigger] s[i]) by {
            if i > 0 {
                assert(s[i] == s.drop_first()[i - 1]);
            }
        }
    }
}

/// The solid length is within the text; what stands before it is none
/// of the white space at the end, which is all that follows.
proof fn lemma_solid_len(s: Seq<char>)
    ensures
        0 <= solid_len(s) <= s.len(),
        solid_len(s) > 0 ==> !is_space(s[solid_len(s) - 1]),
        forall|i: int| solid_len(s) <= i < s.len() ==> is_space(#[trigger] s[i]),
    decreases s.len(),
{
    if s.len() > 0 && is_space(s.last()) {
        lemma_solid_len(s.drop_last());
        assert forall|i: int| solid_len(s) <= i < s.len() implies is_space(#[trigger] s[i]) by {
            if i < s.len() - 1 {
                assert(s[i] == s.drop_last()[i]);
            }
        }
    }
}

/// A text of white space has no solid length, and the other way round.
proof fn lemma_blank_has_no_solid(s: Seq<char>)
    ensures
        blank(s) <==> solid_len(s) == 0,
        !blank(s) ==> leading_space(s) < solid_len(s),
{
    lemma_leading_space(s);
    lemma_solid_len(s);
    let a = leading_space(s);
    let b = solid_len(s);
    if a == s.len() {
        if b > 0 {
            assert(is_space(s[b - 1]));
        }
    } else {
        if b <= a {
            assert(is_space(s[a]));
        }
    }
}

/// Where the text of `v` from `start` to `end` begins and ends once the
/// white space at its ends is left out.
pub fn trim_range(v: &Vec<char>, start: usize, end: usize) -> (r: (usize, usize))
    requires
        start <= end <= v@.len(),
    ensures
        start <= r.0 <= r.1 <= end,
        v@.subrange(r.0 as int, r.1 as int) == trimmed(v@.subrange(start as int, end as int)),
        r.0 == r.1 <==> blank(v@.subrange(start as int, end as int)),
{
    let ghost s = v@.subrange(start as int, end as int);
    let mut a: usize = start;
    while a < end && is_space_char(v[a])
        invariant
            start <= a <= end <= v@.len(),
            s == v@.subrange(start as int, end as int),
            leading_space(s) == (a - start) + leading_space(v@.subrange(a as int, end as int)),
        decreases end - a,
    {
        proof {
            assert(v@.subrange(a as int, end as int).drop_first() =~= v@.subrange(
                a + 1,
                end as int,
            ));
        }
        a = a + 1;
    }
    let mut b: usize = end;
    while b > a && is_space_char(v[b - 1])
        invariant
            start <= a <= b <= end <= v@.len(),
            s == v@.subrange(start as int, end as int),
            solid_len(s) == solid_len(v@.subrange(start as int, b as int)),
        decreases b,
    {
        proof {
            assert(v@.subrange(start as int, b as int).drop_last() =~= v@.subrange(
                start as int,
                b - 1,
            ));
        }
        b = b - 1;
    }
    proof {
        lemma_blank_has_no_solid(s);
        lemma_leading_space(s);
        lemma_solid_len(s);
        let rest = v@.subrange(a as int, end as int);
        if a < end {
            assert(rest[0] == v@[a as int]);
        }
        assert(leading_space(s) == a - start);
        let head = v@.subrange(start as int, b as int);
        if b > a {
            assert(head.last() == v@[b - 1]);
            assert(solid_len(s) == b - start);
            assert(v@.subrange(a as int, b as int) =~= s.subrange(a - start, b - start));
        } else {
            assert(v@.subrange(a as int, b as int) =~= Seq::<char>::empty());
            if a < end {
                assert(!is_space(s[a - start]));
                lemma_solid_len(head);
                assert(solid_len(head) <= a - start);
                assert(false);
            }
        }
    }
    (a, b)
}

/// Whether the text of `v` from `start` to `end` begins with `prefix`.
pub fn has_prefix(v: &Vec<char>, start: usize, end: usize, prefix: &str) -> (r: bool)
    requires
        start <= end <= v@.len(),
    ensures
        r == starts_with(v@.subrange(start as int, end as int), prefix@),
{
    let n: usize = prefix.unicode_len();
    if n > end - start {
        return false;
    }
    let ghost s = v@.subrange(start as int, end as int);
    let mut k: usize = 0;
    while k < n
        invariant
            k <= n == prefix@.len(),
            n <= end - start,
            start <= end <= v@.len(),
            s == v@.subrange(start as int, end as int),
            forall|i: int| 0 <= i < k ==> v@[start + i] == prefix@[i],
        decreases n - k,
    {
        if v[start + k] != prefix.get_char(k) {
            proof {
                assert(s.subrange(0, n as int)[k as int] == v@[start + k]);
            }
            return false;
        }
        k = k + 1;
    }
    proof {
        assert(s.subrange(0, n as int) =~= prefix@);
    }
    true
}

/// How many characters stand before the first line feed, or in the whole
/// text where there is none.
pub open spec fn line_len(s: Seq<char>) -> int
    decreases s.len(),
{
    if s.len() == 0 || s[0] == '\n' {
        0
    } else {
        1 + line_len(s.drop_first())
    }
}

/// A line without the carriage return at its end, if it has one.
pub open spec fn without_cr(s: Seq<char>) -> Seq<char> {
    if s.len() > 0 && s.last() == '\r' {
        s.drop_last()
    } else {
        s
    }
}

/// The lines of a text. A line ends with a line feed, or with a carriage
/// return and a line feed, which are not part of it; the last line may go
/// without. A text that ends with a line ending has no empty line after it.
pub open spec fn lines(s: Seq<char>) -> Seq<Seq<char>>
    decreases s.len(),
{
    let k = line_len(s);
    if s.len() == 0 {
        Seq::empty()
    } else if 0 <= k < s.len() {
        seq![without_cr(s.take(k))] + lines(s.skip(k + 1))
    } else {
        seq![s]
    }
}

/// Where `sep` first occurs in a text, or the length of the text where it
/// does not.
pub open spec fn find(s: Seq<char>, sep: Seq<char>) -> int
    decreases s.len(),
{
    if s.len() < sep.len() || s.len() == 0 {
        s.len() as int
    } else if starts_with(s, sep) {
        0
    } else {
        1 + find(s.drop_first(), sep)
    }
}

/// The pieces that a text falls into at every occurrence of `sep`, taken
/// from the left. Two occurrences on end, or one at an end of the text,
/// leave an empty piece.
pub open spec fn sections(s: Seq<char>, sep: Seq<char>) -> Seq<Seq<char>>
    decreases s.len(),
{
    let k = find(s, sep);
    if sep.len() > 0 && 0 <= k && k + sep.len() <= s.len() {
        seq![s.take(k)] + sections(s.skip(k + sep.len()), sep)
    } else {
        seq![s]
    }
}

/// The pieces of `v` that the ranges name.
pub open spec fn pieces(v: Seq<char>, ranges: Seq<(usize, usize)>) -> Seq<Seq<char>> {
    Seq::new(ranges.len(), |i: int| v.subrange(ranges[i].0 as int, ranges[i].1 as int))
}

/// Whether every range lies within `start` and `end`.
pub open spec fn within(ranges: Seq<(usize, usize)>, start: usize, end: usize) -> bool {
    forall|i: int|
        0 <= i < ranges.len() ==> start <= (#[trigger] ranges[i]).0 <= ranges[i].1 <= end
}

/// Where the lines of the text of `v` from `start` to `end` begin and
/// end.
pub fn line_ranges(v: &Vec<char>, start: usize, end: usize) -> (r: Vec<(usize, usize)>)
    requires
        start <= end <= v@.len(),
    ensures
        within(r@, start, end),
        pieces(v@, r@) == lines(v@.subrange(start as int, end as int)),
{
    let mut out: Vec<(usize, usize)> = Vec::new();
    let mut pos: usize = start;
    let ghost whole = lines(v@.subrange(start as int, end as int));
    proof {
        assert(pieces(v@, out@) + whole =~= whole);
    }
    while pos < end
        invariant
            start <= pos <= end <= v@.len(),
            within(out@, start, end),
            whole == pieces(v@, out@) + lines(v@.subrange(pos as int, end as int)),
        decreases end - pos,
    {
        let ghost rest = v@.subrange(pos as int, end as int);
        let mut j: usize = pos;
        while j < end && v[j] != '\n'
            invariant
                pos <= j <= end <= v@.len(),
                rest == v@.subrange(pos as int, end as int),
                line_len(rest) == (j - pos) + line_len(v@.subrange(j as int, end as int)),
            decreases end - j,
        {
            proof {
                assert(v@.subrange(j as int, end as int).drop_first() =~= v@.subrange(
                    j + 1,
                    end as int,
                ));
            }
            j = j + 1;
        }
        let ghost before = out@;
        proof {
            let tail = v@.subrange(j as int, end as int);
            if j < end {
                assert(tail[0] == v@[j as int]);
            }
            assert(line_len(rest) == j - pos);
        }
        if j == end {
            out.push((pos, end));
            proof {
                assert(lines(v@.subrange(end as int, end as int)) =~= Seq::<Seq<char>>::empty());
                assert(pieces(v@, out@) =~= pieces(v@, before) + seq![rest]);
                assert(pieces(v@, out@) + Seq::<Seq<char>>::empty() =~= pieces(v@, out@));
            }
            pos = end;
        } else {
            let e: usize = if j > pos && v[j - 1] == '\r' {
                j - 1
            } else {
                j
            };
            out.push((pos, e));
            proof {
                let line = rest.take(j - pos);
                assert(line =~= v@.subrange(pos as int, j as int));
                if j > pos {
                    assert(line.last() == v@[j - 1]);
                }
                assert(without_cr(line) =~= v@.subrange(pos as int, e as int));
                assert(rest.skip(j - pos + 1) =~= v@.subrange(j + 1, end as int));
                assert(pieces(v@, out@) =~= pieces(v@, before) + seq![without_cr(line)]);
                assert(pieces(v@, before) + (seq![without_cr(line)] + lines(
                    v@.subrange(j + 1, end as int),
                )) =~= pieces(v@, out@) + lines(v@.subrange(j + 1, end as int)));
            }
            pos = j + 1;
        }
    }
    proof {
        assert(lines(v@.subrange(pos as int, end as int)) =~= Seq::<Seq<char>>::empty());
        assert(pieces(v@, out@) + Seq::<Seq<char>>::empty() =~= pieces(v@, out@));
    }
    out
}

/// Where the pieces begin and end that `v` falls into at every occurrence
/// of `sep`.
pub fn section_ranges(v: &Vec<char>, sep: &str) -> (r: Vec<(usize, usize)>)
    ensures
        within(r@, 0, v@.len() as usize),
        pieces(v@, r@) == sections(v@, sep@),
{
    let len: usize = v.len();
    let n: usize = sep.unicode_len();
    let mut out: Vec<(usize, usize)> = Vec::new();
    if n == 0 {
        out.push((0, len));
        proof {
            assert(v@.subrange(0, len as int) =~= v@);
            assert(pieces(v@, out@) =~= seq![v@]);
        }
        return out;
    }
    let mut pos: usize = 0;
    let mut done: bool = false;
    let ghost whole = sections(v@, sep@);
    proof {
        assert(v@.subrange(0, len as int) =~= v@);
        assert(pieces(v@, out@) + whole =~= whole);
    }
    while !done
        invariant
            pos <= len == v@.len(),
            n == sep@.len(),
            n > 0,
            within(out@, 0, len),
            !done ==> whole == pieces(v@, out@) + sections(
                v@.subrange(pos as int, len as int),
                sep@,
            ),
            done ==> whole == pieces(v@, out@),
        decreases len - pos + if done { 0int } else { 1int },
    {
        let ghost rest = v@.subrange(pos as int, len as int);
        let mut j: usize = pos;
        let mut found: bool = false;
        while !found && n <= len - j
            invariant
                pos <= j <= len == v@.len(),
                n == sep@.len(),
                n > 0,
                rest == v@.subrange(pos as int, len as int),
                find(rest, sep@) == (j - pos) + find(v@.subrange(j as int, len as int), sep@),
                found ==> n <= len - j && starts_with(v@.subrange(j as int, len as int), sep@),
            decreases len - j + if found { 0int } else { 1int },
        {
            if has_prefix(v, j, len, sep) {
                found = true;
            } else {
                proof {
                    assert(v@.subrange(j as int, len as int).drop_first() =~= v@.subrange(
                        j + 1,
                        len as int,
                    ));
                }
                j = j + 1;
            }
        }
        let ghost before = out@;
        if found {
            out.push((pos, j));
            proof {
                assert(find(rest, sep@) == j - pos);
                assert(rest.take(j - pos) =~= v@.subrange(pos as int, j as int));
                assert(rest.skip(j - pos + n) =~= v@.subrange(j + n, len as int));
                assert(pieces(v@, out@) =~= pieces(v@, before) + seq![rest.take(j - pos)]);
                assert(pieces(v@, before) + (seq![rest.take(j - pos)] + sections(
                    v@.subrange(j + n, len as int),
                    sep@,
                )) =~= pieces(v@, out@) + sections(v@.subrange(j + n, len as int), sep@));
            }
            pos = j + n;
        } else {
            out.push((pos, len));
            proof {
                assert(find(rest, sep@) == len - pos);
                assert(pieces(v@, out@) =~= pieces(v@, before) + seq![rest]);
            }
            done = true;
        }
    }
    out
}

/// The line that parts the sections of the script.
pub open spec fn separator() -> Seq<char> {
    "-- ====================================================="@
}

/// Whether a line, trimmed, is a comment.
pub open spec fn is_comment(t: Seq<char>) -> bool {
    starts_with(t, "--"@)
}

/// Whether a line, trimmed, begins a statement of its own.
pub open spec fn opens_statement(t: Seq<char>) -> bool {
    ||| starts_with(t, "CREATE EXTENSION"@)
    ||| starts_with(t, "CREATE TYPE"@)
    ||| starts_with(t, "CREATE TABLE"@)
    ||| starts_with(t, "CREATE INDEX"@)
    ||| starts_with(t, "ALTER TABLE"@)
    ||| starts_with(t, "CREATE OR REPLACE FUNCTION"@)
}

/// Whether a statement is one that is sent to the database: it is not
/// empty and begins with one of the five verbs.
pub open spec fn runnable(t: Seq<char>) -> bool {
    t.len() > 0 && (starts_with(t, "CREATE"@) || starts_with(t, "ALTER"@) || starts_with(
        t,
        "INSERT"@,
    ) || starts_with(t, "UPDATE"@) || starts_with(t, "DELETE"@))
}

/// What has been gathered from the lines of a section so far: the
/// statements that are complete, and the text of the one under way.
pub struct Gathered {
    pub done: Seq<Seq<char>>,
    pub current: Seq<char>,
}

/// `g` with the statement under way closed, where there is one.
pub open spec fn closed(g: Gathered) -> Seq<Seq<char>> {
    if blank(g.current) {
        g.done
    } else {
        g.done.push(trimmed(g.current))
    }
}

/// What is gathered once one more line is taken in. A blank line closes
/// the statement under way; a comment is left out; a line that begins a
/// statement closes the one under way and starts the next; any other line
/// goes on with the one under way. Lines are joined by line feeds.
pub open spec fn take_line(g: Gathered, line: Seq<char>) -> Gathered {
    let t = trimmed(line);
    if blank(line) && !blank(g.current) {
        Gathered { done: closed(g), current: Seq::empty() }
    } else if is_comment(t) {
        g
    } else if opens_statement(t) {
        Gathered { done: closed(g), current: line + seq!['\n'] }
    } else {
        Gathered { done: g.done, current: g.current + line + seq!['\n'] }
    }
}

/// What is gathered from some lines.
pub open spec fn gather(ls: Seq<Seq<char>>) -> Gathered
    decreases ls.len(),
{
    if ls.len() == 0 {
        Gathered { done: Seq::empty(), current: Seq::empty() }
    } else {
        take_line(gather(ls.drop_last()), ls.last())
    }
}

/// The statements of a section, each trimmed.
pub open spec fn section_statements(section: Seq<char>) -> Seq<Seq<char>> {
    closed(gather(lines(section)))
}

/// Those of some statements that are sent to the database.
pub open spec fn keep_runnable(ts: Seq<Seq<char>>) -> Seq<Seq<char>>
    decreases ts.len(),
{
    if ts.len() == 0 {
        Seq::empty()
    } else if runnable(ts.last()) {
        keep_runnable(ts.drop_last()).push(ts.last())
    } else {
        keep_runnable(ts.drop_last())
    }
}

/// The statements of some sections, in their order; a blank section has
/// none.
pub open spec fn statements_of(parts: Seq<Seq<char>>) -> Seq<Seq<char>>
    decreases parts.len(),
{
    if parts.len() == 0 {
        Seq::empty()
    } else if blank(parts.last()) {
        statements_of(parts.drop_last())
    } else {
        statements_of(parts.drop_last()) + keep_runnable(section_statements(parts.last()))
    }
}

/// The statements of a script that are sent to the database, in their
/// order.
pub open spec fn statements(script: Seq<char>) -> Seq<Seq<char>> {
    statements_of(sections(script, separator()))
}

/// Some texts as mathematical values.
pub open spec fn texts(out: Seq<Vec<char>>) -> Seq<Seq<char>> {
    Seq::new(out.len(), |i: int| out[i]@)
}

/// Whether a line, trimmed, begins a statement of its own.
fn opens(v: &Vec<char>, start: usize, end: usize) -> (r: bool)
    requires
        start <= end <= v@.len(),
    ensures
        r == opens_statement(v@.subrange(start as int, end as int)),
{
    has_prefix(v, start, end, "CREATE EXTENSION") || has_prefix(v, start, end, "CREATE TYPE")
        || has_prefix(v, start, end, "CREATE TABLE") || has_prefix(v, start, end, "CREATE INDEX")
        || has_prefix(v, start, end, "ALTER TABLE") || has_prefix(
        v,
        start,
        end,
        "CREATE OR REPLACE FUNCTION",
    )
}

/// Whether a statement is one that is sent to the database.
fn is_runnable(t: &Vec<char>) -> (r: bool)
    ensures
        r == runnable(t@),
{
    let n: usize = t.len();
    proof {
        assert(t@.subrange(0, n as int) =~= t@);
    }
    n > 0 && (has_prefix(t, 0, n, "CREATE") || has_prefix(t, 0, n, "ALTER") || has_prefix(
        t,
        0,
        n,
        "INSERT",
    ) || has_prefix(t, 0, n, "UPDATE") || has_prefix(t, 0, n, "DELETE"))
}

/// The text of `v` from `start` to `end` on its own.
fn copy_range(v: &Vec<char>, start: usize, end: usize) -> (r: Vec<char>)
    requires
        start <= end <= v@.len(),
    ensures
        r@ == v@.subrange(start as int, end as int),
{
    let mut out: Vec<char> = Vec::new();
    let mut i: usize = start;
    while i < end
        invariant
            start <= i <= end <= v@.len(),
            out@ == v@.subrange(start as int, i as int),
        decreases end - i,
    {
        out.push(v[i]);
        proof {
            assert(out@ =~= v@.subrange(start as int, i + 1));
        }
        i = i + 1;
    }
    out
}

/// Puts a line and a line feed at the end of the statement under way.
fn append_line(current: &mut Vec<char>, v: &Vec<char>, start: usize, end: usize)
    requires
        start <= end <= v@.len(),
    ensures
        final(current)@ == old(current)@ + v@.subrange(start as int, end as int) + seq!['\n'],
{
    let mut i: usize = start;
    proof {
        assert(current@ =~= old(current)@ + v@.subrange(start as int, start as int));
    }
    while i < end
        invariant
            start <= i <= end <= v@.len(),
            current@ == old(current)@ + v@.subrange(start as int, i as int),
        decreases end - i,
    {
        current.push(v[i]);
        proof {
            assert(current@ =~= old(current)@ + v@.subrange(start as int, i + 1));
        }
        i = i + 1;
    }
    current.push('\n');
    proof {
        assert(current@ =~= old(current)@ + v@.subrange(start as int, end as int) + seq!['\n']);
    }
}

/// What closing the statement under way adds to the output: the statement,
/// trimmed, where it is not blank and is one for the database.
pub open spec fn closing_adds(current: Seq<char>) -> Seq<Seq<char>> {
    if !blank(current) && runnable(trimmed(current)) {
        seq![trimmed(current)]
    } else {
        Seq::empty()
    }
}

/// Closing the statement under way adds to the statements for the
/// database what `closing_adds` says.
proof fn lemma_closing(g: Gathered)
    ensures
        keep_runnable(closed(g)) == keep_runnable(g.done) + closing_adds(g.current),
{
    let kept = keep_runnable(g.done);
    if blank(g.current) {
        assert(kept + Seq::<Seq<char>>::empty() =~= kept);
    } else {
        let t = trimmed(g.current);
        assert(g.done.push(t).drop_last() =~= g.done);
        if runnable(t) {
            assert(kept.push(t) =~= kept + seq![t]);
        } else {
            assert(kept + Seq::<Seq<char>>::empty() =~= kept);
        }
    }
}

/// Closes the statement under way: where it is not blank, it is trimmed,
/// and where it is then one for the database, it joins the output.
fn close(current: &Vec<char>, out: &mut Vec<Vec<char>>)
    ensures
        texts(final(out)@) == texts(old(out)@) + closing_adds(current@),
{
    let n: usize = current.len();
    let (a, b) = trim_range(current, 0, n);
    proof {
        assert(current@.subrange(0, n as int) =~= current@);
        assert(texts(out@) + Seq::<Seq<char>>::empty() =~= texts(out@));
    }
    if a < b {
        let statement: Vec<char> = copy_range(current, a, b);
        if is_runnable(&statement) {
            let ghost before = out@;
            let ghost t = statement@;
            out.push(statement);
            proof {
                assert(texts(out@) =~= texts(before) + seq![t]);
            }
        }
    }
}

/// Adds the statements of one section that are sent to the database.
fn section_into(v: &Vec<char>, start: usize, end: usize, out: &mut Vec<Vec<char>>)
    requires
        start <= end <= v@.len(),
    ensures
        texts(final(out)@) == texts(old(out)@) + keep_runnable(
            section_statements(v@.subrange(start as int, end as int)),
        ),
{
    let ranges: Vec<(usize, usize)> = line_ranges(v, start, end);
    let ghost ls = pieces(v@, ranges@);
    let mut current: Vec<char> = Vec::new();
    let ghost mut done: Seq<Seq<char>> = Seq::empty();
    let mut i: usize = 0;
    proof {
        assert(ls.take(0) =~= Seq::<Seq<char>>::empty());
        assert(texts(out@) + keep_runnable(done) =~= texts(out@));
    }
    while i < ranges.len()
        invariant
            i <= ranges@.len(),
            start <= end <= v@.len(),
            within(ranges@, start, end),
            ls == pieces(v@, ranges@),
            gather(ls.take(i as int)) == (Gathered { done, current: current@ }),
            texts(out@) == texts(old(out)@) + keep_runnable(done),
        decreases ranges.len() - i,
    {
        let (la, lb) = ranges[i];
        let ghost line = v@.subrange(la as int, lb as int);
        let ghost g = Gathered { done, current: current@ };
        proof {
            assert(ls.take(i + 1).drop_last() =~= ls.take(i as int));
            assert(ls.take(i + 1).last() == line);
        }
        let (ta, tb) = trim_range(v, la, lb);
        let (ca, cb) = trim_range(&current, 0, current.len());
        proof {
            assert(current@.subrange(0, current@.len() as int) =~= current@);
        }
        if ta == tb && ca != cb {
            close(&current, out);
            proof {
                lemma_closing(g);
                assert(texts(old(out)@) + keep_runnable(done) + closing_adds(current@) =~= texts(
                    old(out)@,
                ) + (keep_runnable(done) + closing_adds(current@)));
                done = closed(g);
            }
            current.clear();
        } else if has_prefix(v, ta, tb, "--") {
        } else if opens(v, ta, tb) {
            close(&current, out);
            proof {
                lemma_closing(g);
                assert(texts(old(out)@) + keep_runnable(done) + closing_adds(current@) =~= texts(
                    old(out)@,
                ) + (keep_runnable(done) + closing_adds(current@)));
                done = closed(g);
            }
            current.clear();
            append_line(&mut current, v, la, lb);
            proof {
                assert(current@ =~= line + seq!['\n']);
            }
        } else {
            append_line(&mut current, v, la, lb);
        }
        i = i + 1;
    }
    proof {
        assert(ls.take(i as int) =~= ls);
    }
    close(&current, out);
    proof {
        lemma_closing(Gathered { done, current: current@ });
        assert(texts(old(out)@) + keep_runnable(done) + closing_adds(current@) =~= texts(
            old(out)@,
        ) + (keep_runnable(done) + closing_adds(current@)));
    }
}

/// The statements of a script that are sent to the database, in their
/// order, each trimmed.
///
/// The script falls into sections at every separator line; blank
/// sections are passed over. Within a section, blank lines and the lines
/// that begin a statement part the statements, and comments are left out.
/// Of the statements, those are kept that begin with one of the five
/// verbs.
pub fn split_statements(script: &Vec<char>) -> (r: Vec<Vec<char>>)
    ensures
        texts(r@) == statements(script@),
{
    let parts: Vec<(usize, usize)> = section_ranges(
        script,
        "-- =====================================================",
    );
    let ghost all = pieces(script@, parts@);
    let mut out: Vec<Vec<char>> = Vec::new();
    let mut i: usize = 0;
    proof {
        assert(all.take(0) =~= Seq::<Seq<char>>::empty());
        assert(texts(out@) =~= Seq::<Seq<char>>::empty());
    }
    while i < parts.len()
        invariant
            i <= parts@.len(),
            within(parts@, 0, script@.len() as usize),
            all == pieces(script@, parts@),
            texts(out@) == statements_of(all.take(i as int)),
        decreases parts.len() - i,
    {
        let (a, b) = parts[i];
        proof {
            assert(all.take(i + 1).drop_last() =~= all.take(i as int));
            assert(all.take(i + 1).last() == script@.subrange(a as int, b as int));
        }
        let (ta, tb) = trim_range(script, a, b);
        if ta != tb {
            section_into(script, a, b, &mut out);
        }
        i = i + 1;
    }
    proof {
        assert(all.take(i as int) =~= all);
    }
    out
}

} // verus!
