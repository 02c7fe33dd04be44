//! The text of a script: lines, and the words of each line.
//!
//! A script is trimmed, cut into lines at each line feed, and every line is
//! cut into words at white space.
use vstd::prelude::*;
use vstd::string::*;

verus! {

/// Whether `c` is white space: what `char::is_whitespace` says of it.
pub uninterp spec fn white_space(c: char) -> bool;

/// `char::is_whitespace`: whether the character has the Unicode property
/// `White_Space`. The answer depends on the character alone.
#[verifier::external_body]
fn is_whitespace(c: char) -> (b: bool)
    ensures
        b == white_space(c),
{
    c.is_whitespace()
}

/// Collecting characters into a `String` (`String::from_iter`): the string
/// holds the characters in their order.
#[verifier::external_body]
pub(crate) fn string_of(chars: &Vec<char>) -> (s: String)
    ensures
        s@ == chars@,
{
    chars.iter().collect()
}

/// `s` without the white space at its start.
pub open spec fn skip_space(s: Seq<char>) -> Seq<char>
    decreases s.len(),
{
    if s.len() > 0 && white_space(s[0]) {
        skip_space(s.skip(1))
    } else {
        s
    }
}

/// `s` without the white space at its end.
pub open spec fn drop_space(s: Seq<char>) -> Seq<char>
    decreases s.len(),
{
    if s.len() > 0 && white_space(s.last()) {
        drop_space(s.drop_last())
    } else {
        s
    }
}

/// `s` without the white space at its start and at its end.
pub open spec fn trimmed(s: Seq<char>) -> Seq<char> {
    drop_space(skip_space(s))
}

/// The parts of `s` before `stop` characters, and the part after the last
/// of them.
pub open spec fn cut(s: Seq<char>, stop: spec_fn(char) -> bool) -> (Seq<Seq<char>>, Seq<char>)
    decreases s.len(),
{
    if s.len() == 0 {
        (Seq::empty(), Seq::empty())
    } else {
        let (done, open) = cut(s.drop_last(), stop);
        if stop(s.last()) {
            (done.push(open), Seq::empty())
        } else {
            (done, open.push(s.last()))
        }
    }
}

/// The lines of `s`: what stands between its line feeds. A text without a
/// character has no line.
pub open spec fn lines_of(s: Seq<char>) -> Seq<Seq<char>> {
    if s.len() == 0 {
        Seq::empty()
    } else {
        let (done, open) = cut(s, |c: char| c == '\n');
        done.push(open)
    }
}

/// `parts` without the empty ones.
pub open spec fn filled(parts: Seq<Seq<char>>) -> Seq<Seq<char>>
    decreases parts.len(),
{
    if parts.len() == 0 {
        Seq::empty()
    } else if parts.last().len() == 0 {
        filled(parts.drop_last())
    } else {
        filled(parts.drop_last()).push(parts.last())
    }
}

/// The words of `s`: the longest stretches without white space.
pub open spec fn words_of(s: Seq<char>) -> Seq<Seq<char>> {
    let (done, open) = cut(s, |c: char| white_space(c));
    filled(done.push(open))
}

/// The lines of a script, each as its words.
pub open spec fn script_of(text: Seq<char>) -> Seq<Seq<Seq<char>>> {
    lines_of(trimmed(text)).map_values(|line: Seq<char>| words_of(line))
}

/// The words that a line holds.
pub open spec fn line_view(line: Vec<Vec<char>>) -> Seq<Seq<char>> {
    line@.map_values(|w: Vec<char>| w@)
}

/// The lines that a script holds.
pub open spec fn script_view(lines: Vec<Vec<Vec<char>>>) -> Seq<Seq<Seq<char>>> {
    lines@.map_values(|line: Vec<Vec<char>>| line_view(line))
}

/// The characters of `text`.
pub fn chars_of(text: &str) -> (chars: Vec<char>)
    ensures
        chars@ == text@,
{
    let n: usize = text.unicode_len();
    let mut chars: Vec<char> = Vec::new();
    let mut i: usize = 0;
    while i < n
        invariant
            i <= n,
            n == text@.len(),
            chars@ == text@.take(i as int),
        decreases n - i,
    {
        chars.push(text.get_char(i));
        assert(text@.take(i + 1) =~= text@.take(i as int).push(text@[i as int]));
        i = i + 1;
    }
    assert(text@.take(n as int) =~= text@);
    chars
}

/// The characters of `chars` from `from` up to `to`.
fn slice_of(chars: &Vec<char>, from: usize, to: usize) -> (part: Vec<char>)
    requires
        from <= to <= chars.len(),
    ensures
        part@ == chars@.subrange(from as int, to as int),
{
    let mut part: Vec<char> = Vec::new();
    let mut i: usize = from;
    while i < to
        invariant
            from <= i <= to <= chars.len(),
            part@ == chars@.subrange(from as int, i as int),
        decreases to - i,
    {
        part.push(chars[i]);
        assert(chars@.subrange(from as int, i + 1) =~= chars@.subrange(from as int, i as int).push(
            chars[i as int],
        ));
        i = i + 1;
    }
    part
}

/// `chars` without the white space at its start and at its end.
pub fn trim(chars: &Vec<char>) -> (part: Vec<char>)
    ensures
        part@ == trimmed(chars@),
{
    let mut from: usize = 0;
    assert(chars@.skip(0) =~= chars@);
    while from < chars.len() && is_whitespace(chars[from])
        invariant
            from <= chars.len(),
            skip_space(chars@) == skip_space(chars@.skip(from as int)),
        decreases chars.len() - from,
    {
        assert(chars@.skip(from as int).skip(1) =~= chars@.skip(from + 1));
        from = from + 1;
    }
    let mut to: usize = chars.len();
    assert(chars@.subrange(from as int, to as int) =~= chars@.skip(from as int));
    while to > from && is_whitespace(chars[to - 1])
        invariant
            from <= to <= chars.len(),
            skip_space(chars@) == chars@.skip(from as int),
            trimmed(chars@) == drop_space(chars@.subrange(from as int, to as int)),
        decreases to,
    {
        assert(chars@.subrange(from as int, to as int).drop_last() =~= chars@.subrange(
            from as int,
            to - 1,
        ));
        to = to - 1;
    }
    slice_of(chars, from, to)
}

/// The lines of `chars`.
pub fn lines(chars: &Vec<char>) -> (parts: Vec<Vec<char>>)
    ensures
        line_view(parts) == lines_of(chars@),
{
    let mut parts: Vec<Vec<char>> = Vec::new();
    if chars.len() == 0 {
        assert(line_view(parts) =~= Seq::<Seq<char>>::empty());
        return parts;
    }
    let mut open: Vec<char> = Vec::new();
    let mut i: usize = 0;
    let ghost stop = |c: char| c == '\n';
    assert(line_view(parts) =~= Seq::<Seq<char>>::empty());
    assert(chars@.take(0) =~= Seq::<char>::empty());
    while i < chars.len()
        invariant
            i <= chars.len(),
            stop == (|c: char| c == '\n'),
            (line_view(parts), open@) == cut(chars@.take(i as int), stop),
        decreases chars.len() - i,
    {
        assert(chars@.take(i + 1).drop_last() =~= chars@.take(i as int));
        let ghost before = line_view(parts);
        if chars[i] == '\n' {
            parts.push(open);
            assert(line_view(parts) =~= before.push(open@));
            open = Vec::new();
        } else {
            open.push(chars[i]);
        }
        i = i + 1;
    }
    assert(chars@.take(chars.len() as int) =~= chars@);
    let ghost before = line_view(parts);
    parts.push(open);
    assert(line_view(parts) =~= before.push(open@));
    parts
}

/// The words of `chars`.
pub fn words(chars: &Vec<char>) -> (parts: Vec<Vec<char>>)
    ensures
        line_view(parts) == words_of(chars@),
{
    let mut parts: Vec<Vec<char>> = Vec::new();
    let mut open: Vec<char> = Vec::new();
    let mut i: usize = 0;
    let ghost stop = |c: char| white_space(c);
    assert(line_view(parts) =~= Seq::<Seq<char>>::empty());
    assert(chars@.take(0) =~= Seq::<char>::empty());
    while i < chars.len()
        invariant
            i <= chars.len(),
            stop == (|c: char| white_space(c)),
            line_view(parts) == filled(cut(chars@.take(i as int), stop).0),
            open@ == cut(chars@.take(i as int), stop).1,
        decreases chars.len() - i,
    {
        assert(chars@.take(i + 1).drop_last() =~= chars@.take(i as int));
        let ghost before = line_view(parts);
        let ghost done = cut(chars@.take(i as int), stop).0;
        if is_whitespace(chars[i]) {
            assert(done.push(open@).drop_last() =~= done);
            if open.len() > 0 {
                parts.push(open);
                assert(line_view(parts) =~= before.push(open@));
                open = Vec::new();
            }
        } else {
            open.push(chars[i]);
        }
        i = i + 1;
    }
    assert(chars@.take(chars.len() as int) =~= chars@);
    let ghost before = line_view(parts);
    let ghost done = cut(chars@, stop).0;
    assert(done.push(open@).drop_last() =~= done);
    if open.len() > 0 {
        parts.push(open);
        assert(line_view(parts) =~= before.push(open@));
    }
    parts
}

/// Reads a script: the lines of the trimmed text, each as its words.
pub fn read_script(text: &str) -> (script: Vec<Vec<Vec<char>>>)
    ensures
        script_view(script) == script_of(text@),
{
    let chars = chars_of(text);
    let body = trim(&chars);
    let rows = lines(&body);
    let mut script: Vec<Vec<Vec<char>>> = Vec::new();
    let mut i: usize = 0;
    let ghost all = lines_of(body@);
    assert(script_view(script) =~= Seq::<Seq<Seq<char>>>::empty());
    while i < rows.len()
        invariant
            i <= rows.len(),
            line_view(rows) == all,
            script_view(script) == all.take(i as int).map_values(|line: Seq<char>| words_of(line)),
        decreases rows.len() - i,
    {
        let ghost before = script_view(script);
        let row = words(&rows[i]);
        assert(rows[i as int]@ == all[i as int]);
        script.push(row);
        assert(script_view(script) =~= before.push(words_of(all[i as int])));
        assert(all.take(i + 1).map_values(|line: Seq<char>| words_of(line)) =~= all.take(
            i as int,
        ).map_values(|line: Seq<char>| words_of(line)).push(words_of(all[i as int])));
        i = i + 1;
    }
    assert(all.take(rows.len() as int) =~= all);
    script
}

proof fn lemma_cut_len(s: Seq<char>, stop: spec_fn(char) -> bool)
    ensures
        cut(s, stop).0.len() <= s.len(),
    decreases s.len(),
{
    if s.len() > 0 {
        lemma_cut_len(s.drop_last(), stop);
    }
}

proof fn lemma_skip_space_len(s: Seq<char>)
    ensures
        skip_space(s).len() <= s.len(),
    decreases s.len(),
{
    if s.len() > 0 && white_space(s[0]) {
        lemma_skip_space_len(s.skip(1));
    }
}

proof fn lemma_drop_space_len(s: Seq<char>)
    ensures
        drop_space(s).len() <= s.len(),
    decreases s.len(),
{
    if s.len() > 0 && white_space(s.last()) {
        lemma_drop_space_len(s.drop_last());
    }
}

/// A script has at most one line more than its text has characters.
pub proof fn lemma_script_len(text: Seq<char>)
    ensures
        script_of(text).len() <= text.len() + 1,
{
    lemma_skip_space_len(text);
    lemma_drop_space_len(skip_space(text));
    lemma_cut_len(trimmed(text), |c: char| c == '\n');
}

} // verus!
