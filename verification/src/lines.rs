//! Taking texts apart: trimming, splitting, prefixes.
use vstd::prelude::*;

verus! {

/// The characters that count as white space: those with the Unicode property
/// of that name.
pub open spec fn is_white(c: char) -> bool {
    ||| 0x09 <= c as u32 <= 0x0d
    ||| c as u32 == 0x20
    ||| c as u32 == 0x85
    ||| c as u32 == 0xa0
    ||| c as u32 == 0x1680
    ||| 0x2000 <= c as u32 <= 0x200a
    ||| c as u32 == 0x2028
    ||| c as u32 == 0x2029
    ||| c as u32 == 0x202f
    ||| c as u32 == 0x205f
    ||| c as u32 == 0x3000
}

/// Whether a character counts as white space.
pub fn white(c: char) -> (r: bool)
    ensures
        r == is_white(c),
{
    let n: u32 = c as u32;
    (0x09 <= n && n <= 0x0d) || n == 0x20 || n == 0x85 || n == 0xa0 || n == 0x1680 || (0x2000 <= n
        && n <= 0x200a) || n == 0x2028 || n == 0x2029 || n == 0x202f || n == 0x205f || n == 0x3000
}

/// The characters of a text.
pub fn chars_of(s: &str) -> (r: Vec<char>)
    ensures
        r@ == s@,
{
    broadcast use vstd::string::axiom_spec_iter;

    let mut r: Vec<char> = Vec::new();
    for c in it: s.chars()
        invariant
            it.seq() == s@,
            r@ == s@.take(it.index()),
    {
        r.push(c);
        assert(r@ =~= s@.take(it.index() + 1));
    }
    assert(r@ =~= s@);
    r
}

/// The text without the white space before it.
pub open spec fn trimmed_start(s: Seq<char>) -> Seq<char>
    decreases s.len(),
{
    if s.len() > 0 && is_white(s[0]) {
        trimmed_start(s.drop_first())
    } else {
        s
    }
}

/// The text without the white space behind it.
pub open spec fn trimmed_end(s: Seq<char>) -> Seq<char>
    decreases s.len(),
{
    if s.len() > 0 && is_white(s.last()) {
        trimmed_end(s.drop_last())
    } else {
        s
    }
}

/// The text without the white space around it.
pub open spec fn trimmed(s: Seq<char>) -> Seq<char> {
    trimmed_end(trimmed_start(s))
}

/// Where `chars[from..to]` begins and ends without the white space around it.
fn trim_range(chars: &Vec<char>, from: usize, to: usize) -> (r: (usize, usize))
    requires
        from <= to <= chars@.len(),
    ensures
        from <= r.0 <= r.1 <= to,
        chars@.subrange(r.0 as int, r.1 as int) == trimmed(
            chars@.subrange(from as int, to as int),
        ),
{
    let mut a: usize = from;
    let ghost whole = chars@.subrange(from as int, to as int);
    while a < to && white(chars[a])
        invariant
            from <= a <= to <= chars@.len(),
            whole == chars@.subrange(from as int, to as int),
            trimmed_start(whole) == trimmed_start(chars@.subrange(a as int, to as int)),
        decreases to - a,
    {
        proof {
            let rest = chars@.subrange(a as int, to as int);
            assert(rest[0] == chars@[a as int]);
            assert(rest.drop_first() =~= chars@.subrange(a + 1, to as int));
        }
        a = a + 1;
    }
    let ghost front = chars@.subrange(a as int, to as int);
    proof {
        if a < to {
            assert(front[0] == chars@[a as int]);
        }
        assert(trimmed_start(whole) == front);
    }
    let mut b: usize = to;
    while a < b && white(chars[b - 1])
        invariant
            a <= b <= to <= chars@.len(),
            trimmed_end(front) == trimmed_end(chars@.subrange(a as int, b as int)),
        decreases b - a,
    {
        proof {
            let rest = chars@.subrange(a as int, b as int);
            assert(rest.last() == chars@[b - 1]);
            assert(rest.drop_last() =~= chars@.subrange(a as int, b - 1));
        }
        b = b - 1;
    }
    proof {
        let rest = chars@.subrange(a as int, b as int);
        if a < b {
            assert(rest.last() == chars@[b - 1]);
        }
    }
    (a, b)
}

/// The text without the white space around it.
pub fn trim(s: &str) -> (r: String)
    ensures
        r@ == trimmed(s@),
{
    let chars: Vec<char> = chars_of(s);
    let (a, b): (usize, usize) = trim_range(&chars, 0, chars.len());
    assert(chars@.subrange(0, chars@.len() as int) =~= s@);
    s.substring_char(a, b).to_owned()
}

/// Cut the text at every `sep`. There is always one piece more than there are
/// separators.
pub open spec fn pieces(s: Seq<char>, sep: char) -> Seq<Seq<char>>
    decreases s.len(),
{
    if s.len() == 0 {
        seq![Seq::empty()]
    } else {
        let before = pieces(s.drop_last(), sep);
        if s.last() == sep {
            before.push(Seq::empty())
        } else {
            before.update(before.len() - 1, before.last().push(s.last()))
        }
    }
}

/// The pieces of a text, each without the white space around it.
pub open spec fn trimmed_pieces(s: Seq<char>, sep: char) -> Seq<Seq<char>> {
    pieces(s, sep).map_values(|piece: Seq<char>| trimmed(piece))
}

/// Cut the text at every `sep` and take the white space off the pieces.
pub fn split_trimmed(s: &str, sep: char) -> (r: Vec<String>)
    ensures
        r@.len() == pieces(s@, sep).len(),
        forall|i: int| 0 <= i < r@.len() ==> (#[trigger] r@[i])@ == trimmed_pieces(s@, sep)[i],
{
    let chars: Vec<char> = chars_of(s);
    let mut r: Vec<String> = Vec::new();
    let mut from: usize = 0;
    let mut i: usize = 0;
    assert(s@.take(0) =~= Seq::<char>::empty());
    assert(s@.subrange(0, 0) =~= Seq::<char>::empty());
    while i < chars.len()
        invariant
            chars@ == s@,
            from <= i <= chars@.len(),
            pieces(s@.take(i as int), sep).len() == r@.len() + 1,
            pieces(s@.take(i as int), sep).last() == s@.subrange(from as int, i as int),
            forall|k: int|
                0 <= k < r@.len() ==> (#[trigger] r@[k])@ == trimmed(
                    pieces(s@.take(i as int), sep)[k],
                ),
        decreases chars@.len() - i,
    {
        let ghost now = s@.take(i as int);
        let ghost next = s@.take(i + 1);
        proof {
            assert(next.drop_last() =~= now);
            assert(next.last() == s@[i as int]);
        }
        if chars[i] == sep {
            let (a, b): (usize, usize) = trim_range(&chars, from, i);
            r.push(s.substring_char(a, b).to_owned());
            from = i + 1;
            assert(s@.subrange(from as int, from as int) =~= Seq::<char>::empty());
        } else {
            assert(s@.subrange(from as int, i as int).push(s@[i as int]) =~= s@.subrange(
                from as int,
                i + 1,
            ));
        }
        i = i + 1;
    }
    assert(s@.take(i as int) =~= s@);
    let (a, b): (usize, usize) = trim_range(&chars, from, i);
    r.push(s.substring_char(a, b).to_owned());
    r
}

/// Cut the text at every `sep`.
pub fn split(s: &str, sep: char) -> (r: Vec<String>)
    ensures
        r@.len() == pieces(s@, sep).len(),
        forall|i: int| 0 <= i < r@.len() ==> (#[trigger] r@[i])@ == pieces(s@, sep)[i],
{
    let chars: Vec<char> = chars_of(s);
    let mut r: Vec<String> = Vec::new();
    let mut from: usize = 0;
    let mut i: usize = 0;
    assert(s@.take(0) =~= Seq::<char>::empty());
    assert(s@.subrange(0, 0) =~= Seq::<char>::empty());
    while i < chars.len()
        invariant
            chars@ == s@,
            from <= i <= chars@.len(),
            pieces(s@.take(i as int), sep).len() == r@.len() + 1,
            pieces(s@.take(i as int), sep).last() == s@.subrange(from as int, i as int),
            forall|k: int|
                0 <= k < r@.len() ==> (#[trigger] r@[k])@ == pieces(s@.take(i as int), sep)[k],
        decreases chars@.len() - i,
    {
        let ghost now = s@.take(i as int);
        let ghost next = s@.take(i + 1);
        proof {
            assert(next.drop_last() =~= now);
            assert(next.last() == s@[i as int]);
        }
        if chars[i] == sep {
            r.push(s.substring_char(from, i).to_owned());
            from = i + 1;
            assert(s@.subrange(from as int, from as int) =~= Seq::<char>::empty());
        } else {
            assert(s@.subrange(from as int, i as int).push(s@[i as int]) =~= s@.subrange(
                from as int,
                i + 1,
            ));
        }
        i = i + 1;
    }
    assert(s@.take(i as int) =~= s@);
    r.push(s.substring_char(from, i).to_owned());
    r
}

/// A line that holds something, and its number.
#[derive(Debug)]
pub struct NumberedLine {
    /// The number, from one.
    pub number: usize,
    /// The line.
    pub text: String,
}

/// The lines that hold more than white space, with their numbers.
pub open spec fn numbered(lines: Seq<Seq<char>>) -> Seq<(nat, Seq<char>)>
    decreases lines.len(),
{
    if lines.len() == 0 {
        Seq::empty()
    } else {
        let before = numbered(lines.drop_last());
        if trimmed(lines.last()).len() == 0 {
            before
        } else {
            before.push((lines.len(), lines.last()))
        }
    }
}

/// The numbered lines hold these values.
pub open spec fn hold(got: Seq<NumberedLine>, wanted: Seq<(nat, Seq<char>)>) -> bool {
    &&& got.len() == wanted.len()
    &&& forall|i: int|
        0 <= i < got.len() ==> (#[trigger] got[i]).number == wanted[i].0 && got[i].text@
            == wanted[i].1
}

/// Keep the lines that hold more than white space, with their numbers.
pub fn number_lines(lines: &Vec<String>) -> (r: Vec<NumberedLine>)
    ensures
        hold(r@, numbered(crate::text::views(lines@))),
{
    let mut r: Vec<NumberedLine> = Vec::new();
    let mut i: usize = 0;
    let ghost all = crate::text::views(lines@);
    assert(all.take(0) =~= Seq::<Seq<char>>::empty());
    while i < lines.len()
        invariant
            i <= lines@.len(),
            all == crate::text::views(lines@),
            hold(r@, numbered(all.take(i as int))),
        decreases lines@.len() - i,
    {
        proof {
            assert(all.take(i + 1).drop_last() =~= all.take(i as int));
            assert(all.take(i + 1).last() == lines@[i as int]@);
        }
        let chars: Vec<char> = chars_of(lines[i].as_str());
        let (a, b): (usize, usize) = trim_range(&chars, 0, chars.len());
        assert(chars@.subrange(0, chars@.len() as int) =~= lines@[i as int]@);
        if a < b {
            r.push(NumberedLine { number: i + 1, text: lines[i].clone() });
        }
        i = i + 1;
    }
    assert(all.take(i as int) =~= all);
    r
}

/// The texts of numbered lines.
pub open spec fn line_texts(lines: Seq<(nat, Seq<char>)>) -> Seq<Seq<char>> {
    lines.map_values(|line: (nat, Seq<char>)| line.1)
}

/// The lines of a text that hold more than white space, each without the white
/// space around it.
pub open spec fn held_lines(s: Seq<char>) -> Seq<Seq<char>> {
    line_texts(numbered(trimmed_pieces(s, '\n')))
}

/// The rows that hold more than white space, each without the white space
/// around it.
pub open spec fn held_rows(rows: Seq<Seq<char>>) -> Seq<Seq<char>>
    decreases rows.len(),
{
    if rows.len() == 0 {
        Seq::empty()
    } else if trimmed(rows.last()).len() == 0 {
        held_rows(rows.drop_last())
    } else {
        held_rows(rows.drop_last()).push(trimmed(rows.last()))
    }
}

/// The rows one after the other, each but the last ended by a line feed.
pub open spec fn joined(rows: Seq<Seq<char>>) -> Seq<char>
    decreases rows.len(),
{
    if rows.len() == 0 {
        Seq::empty()
    } else if rows.len() == 1 {
        rows[0]
    } else {
        joined(rows.drop_last()).push('\n') + rows.last()
    }
}

proof fn lemma_trimmed_start_push(p: Seq<char>, w: char)
    ensures
        trimmed_start(p).len() > 0 ==> trimmed_start(p.push(w)) == trimmed_start(p).push(w),
        trimmed_start(p).len() == 0 ==> trimmed_start(p.push(w)) == trimmed_start(seq![w]),
    decreases p.len(),
{
    if p.len() == 0 {
        assert(p.push(w) =~= seq![w]);
    } else {
        assert(p.push(w)[0] == p[0]);
        if is_white(p[0]) {
            assert(p.push(w).drop_first() =~= p.drop_first().push(w));
            lemma_trimmed_start_push(p.drop_first(), w);
        }
    }
}

/// White space behind a text does not show once it is trimmed.
proof fn lemma_trimmed_push_white(p: Seq<char>, w: char)
    requires
        is_white(w),
    ensures
        trimmed(p.push(w)) == trimmed(p),
{
    lemma_trimmed_start_push(p, w);
    let start = trimmed_start(p);
    if start.len() > 0 {
        assert(start.push(w).drop_last() =~= start);
        assert(start.push(w).last() == w);
    } else {
        assert(seq![w].drop_first() =~= Seq::<char>::empty());
        assert(seq![w][0] == w);
        assert(trimmed_start(Seq::<char>::empty()) =~= Seq::<char>::empty());
        assert(start =~= Seq::<char>::empty());
    }
}

proof fn lemma_trimmed_start_clean(s: Seq<char>)
    ensures
        trimmed_start(s).len() > 0 ==> !is_white(trimmed_start(s)[0]),
        trimmed_start(trimmed_start(s)) == trimmed_start(s),
    decreases s.len(),
{
    if s.len() > 0 && is_white(s[0]) {
        lemma_trimmed_start_clean(s.drop_first());
    }
}

proof fn lemma_trimmed_end_keeps_front(s: Seq<char>)
    ensures
        trimmed_end(s).len() <= s.len(),
        trimmed_end(s).len() > 0 ==> trimmed_end(s)[0] == s[0],
        trimmed_end(trimmed_end(s)) == trimmed_end(s),
    decreases s.len(),
{
    if s.len() > 0 && is_white(s.last()) {
        lemma_trimmed_end_keeps_front(s.drop_last());
    }
}

/// Trimming twice is trimming once.
pub proof fn law_trimming_is_idempotent(s: Seq<char>)
    ensures
        trimmed(trimmed(s)) == trimmed(s),
{
    lemma_trimmed_start_clean(s);
    lemma_trimmed_end_keeps_front(trimmed_start(s));
    assert(trimmed_start(trimmed(s)) == trimmed(s));
}

proof fn lemma_pieces_nonempty(s: Seq<char>, sep: char)
    ensures
        pieces(s, sep).len() > 0,
    decreases s.len(),
{
    if s.len() > 0 {
        lemma_pieces_nonempty(s.drop_last(), sep);
    }
}

/// The numbered trimmed pieces hold what the pieces hold.
proof fn lemma_held(pieces: Seq<Seq<char>>)
    ensures
        line_texts(numbered(pieces.map_values(|piece: Seq<char>| trimmed(piece)))) == held_rows(
            pieces,
        ),
    decreases pieces.len(),
{
    let f = |piece: Seq<char>| trimmed(piece);
    let lines = pieces.map_values(f);
    if pieces.len() == 0 {
        assert(line_texts(numbered(lines)) =~= Seq::<Seq<char>>::empty());
    } else {
        lemma_held(pieces.drop_last());
        assert(lines.drop_last() =~= pieces.drop_last().map_values(f));
        assert(lines.last() == trimmed(pieces.last()));
        law_trimming_is_idempotent(pieces.last());
        let before = numbered(lines.drop_last());
        if trimmed(pieces.last()).len() > 0 {
            assert(line_texts(before.push((lines.len(), lines.last()))) =~= line_texts(
                before,
            ).push(lines.last()));
        }
    }
}

/// White space behind a text changes none of its lines.
proof fn lemma_end_changes_no_line(s: Seq<char>)
    ensures
        held_rows(pieces(trimmed_end(s), '\n')) == held_rows(pieces(s, '\n')),
    decreases s.len(),
{
    if s.len() > 0 && is_white(s.last()) {
        let init = s.drop_last();
        lemma_end_changes_no_line(init);
        lemma_pieces_nonempty(init, '\n');
        let before = pieces(init, '\n');
        let now = pieces(s, '\n');
        assert(now.last().len() == 0 ==> trimmed(now.last()).len() == 0);
        if s.last() == '\n' {
            assert(now.drop_last() =~= before);
            assert(trimmed(Seq::<char>::empty()) =~= Seq::<char>::empty());
        } else {
            assert(now.drop_last() =~= before.drop_last());
            lemma_trimmed_push_white(before.last(), s.last());
        }
    }
}

/// A character before a text stands in front of its first piece, or, as a
/// separator, before an empty one.
proof fn lemma_pieces_front(c: char, t: Seq<char>, sep: char)
    ensures
        pieces(seq![c] + t, sep) == (if c == sep {
            seq![Seq::<char>::empty()] + pieces(t, sep)
        } else {
            pieces(t, sep).update(0, seq![c] + pieces(t, sep)[0])
        }),
    decreases t.len(),
{
    let s = seq![c] + t;
    lemma_pieces_nonempty(t, sep);
    let want = if c == sep {
        seq![Seq::<char>::empty()] + pieces(t, sep)
    } else {
        pieces(t, sep).update(0, seq![c] + pieces(t, sep)[0])
    };
    if t.len() == 0 {
        assert(s.drop_last() =~= Seq::<char>::empty());
        assert(s.last() == c);
        assert(t =~= Seq::<char>::empty());
        assert(pieces(s.drop_last(), sep) =~= seq![Seq::<char>::empty()]);
        assert(Seq::<char>::empty().push(c) =~= seq![c] + Seq::<char>::empty());
        assert(pieces(s, sep) =~= want);
    } else {
        let init = t.drop_last();
        lemma_pieces_front(c, init, sep);
        lemma_pieces_nonempty(init, sep);
        assert(s.drop_last() =~= seq![c] + init);
        assert(s.last() == t.last());
        let before = pieces(init, sep);
        if t.last() != sep && c != sep && before.len() == 1 {
            assert((seq![c] + before[0]).push(t.last()) =~= seq![c] + before[0].push(t.last()));
        }
        assert(pieces(s, sep) =~= want);
    }
}

proof fn lemma_held_rows_front(row: Seq<char>, rows: Seq<Seq<char>>)
    ensures
        held_rows(seq![row] + rows) == (if trimmed(row).len() == 0 {
            held_rows(rows)
        } else {
            seq![trimmed(row)] + held_rows(rows)
        }),
    decreases rows.len(),
{
    let all = seq![row] + rows;
    if rows.len() == 0 {
        assert(all.drop_last() =~= Seq::<Seq<char>>::empty());
        assert(all.last() == row);
        assert(rows =~= Seq::<Seq<char>>::empty());
        assert(held_rows(all) =~= (if trimmed(row).len() == 0 {
            held_rows(rows)
        } else {
            seq![trimmed(row)] + held_rows(rows)
        }));
    } else {
        lemma_held_rows_front(row, rows.drop_last());
        assert(all.drop_last() =~= seq![row] + rows.drop_last());
        assert(all.last() == rows.last());
        let before = held_rows(rows.drop_last());
        assert((seq![trimmed(row)] + before).push(trimmed(rows.last())) =~= seq![trimmed(row)]
            + before.push(trimmed(rows.last())));
    }
}

/// White space before a text changes none of its lines.
proof fn lemma_start_changes_no_line(s: Seq<char>)
    ensures
        held_rows(pieces(trimmed_start(s), '\n')) == held_rows(pieces(s, '\n')),
    decreases s.len(),
{
    if s.len() > 0 && is_white(s[0]) {
        let rest = s.drop_first();
        lemma_start_changes_no_line(rest);
        lemma_pieces_nonempty(rest, '\n');
        assert(s =~= seq![s[0]] + rest);
        lemma_pieces_front(s[0], rest, '\n');
        let after = pieces(rest, '\n');
        let others = after.drop_first();
        assert(after =~= seq![after[0]] + others);
        lemma_held_rows_front(after[0], others);
        if s[0] == '\n' {
            lemma_held_rows_front(Seq::empty(), after);
            assert(trimmed(Seq::<char>::empty()) =~= Seq::<char>::empty());
        } else {
            let longer = seq![s[0]] + after[0];
            assert(pieces(s, '\n') =~= seq![longer] + others);
            lemma_held_rows_front(longer, others);
            assert(longer.drop_first() =~= after[0]);
            assert(trimmed(longer) == trimmed(after[0]));
        }
    }
}

/// White space around a text changes none of its lines.
pub proof fn law_trimming_keeps_the_lines(s: Seq<char>)
    ensures
        held_lines(trimmed(s)) == held_lines(s),
        held_lines(s) == held_rows(pieces(s, '\n')),
{
    lemma_held(pieces(s, '\n'));
    lemma_held(pieces(trimmed(s), '\n'));
    lemma_start_changes_no_line(s);
    lemma_end_changes_no_line(trimmed_start(s));
}

proof fn lemma_trimmed_end_stops(s: Seq<char>)
    requires
        s.len() > 0,
        !is_white(s[0]),
    ensures
        trimmed_end(s).len() > 0,
        trimmed_end(s)[0] == s[0],
    decreases s.len(),
{
    if is_white(s.last()) {
        assert(s.drop_last()[0] == s[0]);
        lemma_trimmed_end_stops(s.drop_last());
    }
}

/// The first line that holds something begins as the text does.
pub proof fn law_first_line_begins_the_text(s: Seq<char>)
    requires
        trimmed(s).len() > 0,
    ensures
        held_lines(s).len() > 0,
        held_lines(s)[0].len() > 0,
        held_lines(s)[0][0] == trimmed(s)[0],
{
    let body = trimmed(s);
    lemma_trimmed_start_clean(s);
    lemma_trimmed_end_keeps_front(trimmed_start(s));
    law_trimming_keeps_the_lines(s);
    law_trimming_keeps_the_lines(body);
    law_trimming_is_idempotent(s);
    let rest = body.drop_first();
    assert(body =~= seq![body[0]] + rest);
    lemma_pieces_nonempty(rest, '\n');
    lemma_pieces_front(body[0], rest, '\n');
    let after = pieces(rest, '\n');
    let first = seq![body[0]] + after[0];
    assert(pieces(body, '\n') =~= seq![first] + after.drop_first());
    lemma_held_rows_front(first, after.drop_first());
    assert(first[0] == body[0]);
    lemma_trimmed_end_stops(first);
}

proof fn lemma_pieces_append(s: Seq<char>, t: Seq<char>, sep: char)
    requires
        forall|i: int| 0 <= i < t.len() ==> #[trigger] t[i] != sep,
    ensures
        pieces(s + t, sep) == pieces(s, sep).update(
            pieces(s, sep).len() - 1,
            pieces(s, sep).last() + t,
        ),
    decreases t.len(),
{
    lemma_pieces_nonempty(s, sep);
    let before = pieces(s, sep);
    if t.len() == 0 {
        assert(s + t =~= s);
        assert(before.last() + t =~= before.last());
        assert(before.update(before.len() - 1, before.last() + t) =~= before);
    } else {
        let init = t.drop_last();
        assert forall|i: int| 0 <= i < init.len() implies #[trigger] init[i] != sep by {
            assert(init[i] == t[i]);
        }
        lemma_pieces_append(s, init, sep);
        assert((s + t).drop_last() =~= s + init);
        assert((s + t).last() == t.last());
        assert(t[t.len() - 1] != sep);
        assert((before.last() + init).push(t.last()) =~= before.last() + t);
        assert(pieces(s + t, sep) =~= before.update(before.len() - 1, before.last() + t));
    }
}

/// Rows that hold no line feed come apart again as they were joined.
pub proof fn law_joined_rows_come_apart(rows: Seq<Seq<char>>)
    requires
        rows.len() > 0,
        forall|i: int, j: int|
            0 <= i < rows.len() && 0 <= j < rows[i].len() ==> #[trigger] rows[i][j] != '\n',
    ensures
        pieces(joined(rows), '\n') == rows,
    decreases rows.len(),
{
    let last = rows.last();
    assert forall|j: int| 0 <= j < last.len() implies #[trigger] last[j] != '\n' by {
        assert(rows[rows.len() - 1][j] != '\n');
    }
    if rows.len() == 1 {
        lemma_pieces_append(Seq::empty(), last, '\n');
        assert(Seq::<char>::empty() + last =~= last);
        assert(pieces(Seq::<char>::empty(), '\n') =~= seq![Seq::<char>::empty()]);
        assert(pieces(joined(rows), '\n') =~= rows);
    } else {
        let init = rows.drop_last();
        assert forall|i: int, j: int|
            0 <= i < init.len() && 0 <= j < init[i].len() implies #[trigger] init[i][j]
            != '\n' by {
            assert(rows[i][j] != '\n');
        }
        law_joined_rows_come_apart(init);
        let ended = joined(init).push('\n');
        assert(ended.drop_last() =~= joined(init));
        lemma_pieces_append(ended, last, '\n');
        assert(Seq::<char>::empty() + last =~= last);
        assert(pieces(joined(rows), '\n') =~= rows);
    }
}

/// Position of the first `sep` in the text.
pub fn find_char(s: &str, sep: char) -> (r: Option<usize>)
    ensures
        match r {
            Some(i) => {
                &&& i < s@.len()
                &&& s@[i as int] == sep
                &&& forall|j: int| 0 <= j < i ==> #[trigger] s@[j] != sep
            },
            None => !s@.contains(sep),
        },
{
    let chars: Vec<char> = chars_of(s);
    let mut i: usize = 0;
    while i < chars.len()
        invariant
            chars@ == s@,
            i <= chars@.len(),
            forall|j: int| 0 <= j < i ==> #[trigger] s@[j] != sep,
        decreases chars@.len() - i,
    {
        if chars[i] == sep {
            return Some(i);
        }
        i = i + 1;
    }
    None
}

/// `whole` starts with `part`.
pub open spec fn starts_with(whole: Seq<char>, part: Seq<char>) -> bool {
    part.len() <= whole.len() && whole.take(part.len() as int) == part
}

/// What is left of a text behind a prefix, where it starts with it.
pub fn strip_prefix(whole: &str, part: &str) -> (r: Option<String>)
    ensures
        match r {
            Some(rest) => starts_with(whole@, part@) && rest@ == whole@.skip(part@.len() as int),
            None => !starts_with(whole@, part@),
        },
{
    let a: Vec<char> = chars_of(whole);
    let b: Vec<char> = chars_of(part);
    if b.len() > a.len() {
        return None;
    }
    let mut i: usize = 0;
    while i < b.len()
        invariant
            a@ == whole@,
            b@ == part@,
            b@.len() <= a@.len(),
            i <= b@.len(),
            forall|j: int| 0 <= j < i ==> a@[j] == #[trigger] b@[j],
        decreases b@.len() - i,
    {
        if a[i] != b[i] {
            proof {
                if starts_with(whole@, part@) {
                    assert(whole@.take(part@.len() as int)[i as int] == part@[i as int]);
                }
            }
            return None;
        }
        i = i + 1;
    }
    assert(whole@.take(part@.len() as int) =~= part@);
    let rest: String = whole.substring_char(b.len(), a.len()).to_owned();
    assert(rest@ =~= whole@.skip(part@.len() as int));
    Some(rest)
}

/// What is trimmed off a text is white, at both ends, and what is left begins and
/// ends with something else.
pub proof fn law_trimming_takes_white_space_only(s: &str, r: String, first: char, last: char)
    requires
        call_ensures(trim, (s,), r),
        r@.len() > 0 ==> first == r@[0] && last == r@.last(),
    ensures
        r@.len() > 0 ==> !is_white(first) && !is_white(last),
        exists|from: int, to: int| #![trigger s@.subrange(from, to)]
            0 <= from <= to <= s@.len() && r@ == s@.subrange(from, to) && (forall|i: int|
                0 <= i < from || to <= i < s@.len() ==> is_white(#[trigger] s@[i])),
{
    let from = lemma_start_is_cut(s@);
    let rest = trimmed_start(s@);
    let to = lemma_end_is_cut(rest);
    lemma_trimmed_start_clean(s@);
    assert(r@ =~= s@.subrange(from, from + to));
    assert forall|i: int| 0 <= i < from || from + to <= i < s@.len() implies is_white(
        #[trigger] s@[i],
    ) by {
        if from + to <= i {
            assert(rest[i - from] == s@[i]);
        }
    }
    if r@.len() > 0 {
        lemma_trimmed_end_stops(rest);
    }
}

proof fn lemma_start_is_cut(s: Seq<char>) -> (from: int)
    ensures
        0 <= from <= s.len(),
        trimmed_start(s) == s.skip(from),
        forall|i: int| 0 <= i < from ==> is_white(#[trigger] s[i]),
        from < s.len() ==> !is_white(s[from]),
    decreases s.len(),
{
    if s.len() > 0 && is_white(s[0]) {
        let rest = s.drop_first();
        let from = lemma_start_is_cut(rest);
        assert(rest.skip(from) =~= s.skip(from + 1));
        assert forall|i: int| 0 <= i < from + 1 implies is_white(#[trigger] s[i]) by {
            if i > 0 {
                assert(rest[i - 1] == s[i]);
            }
        }
        if from + 1 < s.len() {
            assert(rest[from] == s[from + 1]);
        }
        from + 1
    } else {
        assert(s.skip(0) =~= s);
        0
    }
}

proof fn lemma_end_is_cut(s: Seq<char>) -> (to: int)
    ensures
        0 <= to <= s.len(),
        trimmed_end(s) == s.take(to),
        forall|i: int| to <= i < s.len() ==> is_white(#[trigger] s[i]),
        0 < to ==> !is_white(s[to - 1]),
    decreases s.len(),
{
    if s.len() > 0 && is_white(s.last()) {
        let rest = s.drop_last();
        let to = lemma_end_is_cut(rest);
        assert(rest.take(to) =~= s.take(to));
        assert forall|i: int| to <= i < s.len() implies is_white(#[trigger] s[i]) by {
            if i < rest.len() {
                assert(rest[i] == s[i]);
            }
        }
        if 0 < to {
            assert(rest[to - 1] == s[to - 1]);
        }
        to
    } else {
        assert(s.take(s.len() as int) =~= s);
        s.len() as int
    }
}

/// A text is cut at every separator: one more separator is one more piece, which is
/// empty, and any other character goes to the last piece.
pub proof fn law_texts_are_cut_at_separators(
    s: &str,
    longer: &str,
    sep: char,
    r: Vec<String>,
    more: Vec<String>,
    i: int,
)
    requires
        call_ensures(split, (s, sep), r),
        call_ensures(split, (longer, sep), more),
        longer@.len() == s@.len() + 1,
        longer@.drop_last() == s@,
    ensures
        s@.len() == 0 ==> r@.len() == 1 && r@[0]@.len() == 0,
        r@.len() >= 1,
        longer@.last() == sep ==> more@.len() == r@.len() + 1 && more@.last()@.len() == 0 && (0 <= i
            < r@.len() ==> more@[i]@ == r@[i]@),
        longer@.last() != sep ==> more@.len() == r@.len() && more@.last()@ == r@.last()@.push(
            longer@.last(),
        ) && (0 <= i < r@.len() - 1 ==> more@[i]@ == r@[i]@),
{
    let a = pieces(s@, sep);
    let b = pieces(longer@, sep);
    lemma_pieces_nonempty(s@, sep);
    assert(r@[a.len() - 1]@ == a[a.len() - 1]);
    assert(more@[b.len() - 1]@ == b[b.len() - 1]);
    if 0 <= i < a.len() {
        assert(r@[i]@ == a[i]);
    }
    if 0 <= i < b.len() {
        assert(more@[i]@ == b[i]);
    }
}

/// Lines are numbered from one on, blank ones too, and only those that hold
/// something are kept.
pub proof fn law_lines_are_numbered_from_one(
    lines: Vec<String>,
    longer: Vec<String>,
    r: Vec<NumberedLine>,
    more: Vec<NumberedLine>,
    i: int,
)
    requires
        call_ensures(number_lines, (&lines,), r),
        call_ensures(number_lines, (&longer,), more),
        longer@.len() == lines@.len() + 1,
        longer@.drop_last() == lines@,
    ensures
        lines@.len() == 0 ==> r@.len() == 0,
        trimmed(longer@.last()@).len() == 0 ==> more@.len() == r@.len(),
        trimmed(longer@.last()@).len() > 0 ==> more@.len() == r@.len() + 1 && more@.last().number
            == longer@.len() && more@.last().text@ == longer@.last()@,
        0 <= i < r@.len() ==> more@[i].number == r@[i].number && more@[i].text@ == r@[i].text@,
{
    let all = crate::text::views(longer@);
    assert(all.drop_last() =~= crate::text::views(lines@));
    assert(all.last() == longer@.last()@);
    let a = numbered(crate::text::views(lines@));
    let b = numbered(all);
    if 0 <= i < a.len() {
        assert(b[i] == a[i]);
        assert(more@[i].number == b[i].0 && r@[i].number == a[i].0);
    }
    if b.len() > a.len() {
        assert(more@[b.len() - 1].number == b[b.len() - 1].0);
    }
}

/// A prefix is taken off where the text begins with it, and what is left completes
/// it again.
pub proof fn law_prefix_and_rest_make_the_text(
    whole: &str,
    part: &str,
    rest: Seq<char>,
    r: Option<String>,
)
    requires
        call_ensures(strip_prefix, (whole, part), r),
    ensures
        whole@ == part@ + rest ==> r is Some && r->0@ == rest,
        r matches Some(left) ==> whole@ == part@ + left@,
{
    if whole@ == part@ + rest {
        assert(whole@.take(part@.len() as int) =~= part@);
        assert(whole@.skip(part@.len() as int) =~= rest);
    }
    if r is Some {
        assert(whole@ =~= whole@.take(part@.len() as int) + whole@.skip(part@.len() as int));
    }
}

} // verus!
