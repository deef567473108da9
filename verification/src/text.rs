//! Text: decimal numbers, white space, and pieces of strings.

use vstd::prelude::*;

verus! {

/// The character of a decimal digit.
pub open spec fn digit_char(d: nat) -> char {
    (48 + d) as char
}

/// `n` in decimal, without leading zeros.
pub open spec fn decimal(n: nat) -> Seq<char>
    decreases n,
{
    if n < 10 {
        seq![digit_char(n)]
    } else {
        decimal(n / 10).push(digit_char(n % 10))
    }
}

fn digit_str(d: u64) -> (r: &'static str)
    requires
        d < 10,
    ensures
        r@ == seq![digit_char(d as nat)],
{
    proof {
        reveal_strlit("0");
        reveal_strlit("1");
        reveal_strlit("2");
        reveal_strlit("3");
        reveal_strlit("4");
        reveal_strlit("5");
        reveal_strlit("6");
        reveal_strlit("7");
        reveal_strlit("8");
        reveal_strlit("9");
    }
    let r = match d {
        0 => "0",
        1 => "1",
        2 => "2",
        3 => "3",
        4 => "4",
        5 => "5",
        6 => "6",
        7 => "7",
        8 => "8",
        _ => "9",
    };
    assert(r@ =~= seq![digit_char(d as nat)]);
    r
}

/// `n` in decimal.
pub fn decimal_string(n: u64) -> (r: String)
    ensures
        r@ == decimal(n as nat),
    decreases n,
{
    let mut text = if n < 10 {
        String::new()
    } else {
        decimal_string(n / 10)
    };
    text.append(digit_str(n % 10));
    proof {
        assert(text@ =~= decimal(n as nat));
    }
    text
}

/// Whether a character has Unicode's White_Space property.
pub open spec fn is_space(c: char) -> bool {
    let n = c as u32;
    ||| 0x09 <= n <= 0x0D
    ||| n == 0x20
    ||| n == 0x85
    ||| n == 0xA0
    ||| n == 0x1680
    ||| 0x2000 <= n <= 0x200A
    ||| n == 0x2028
    ||| n == 0x2029
    ||| n == 0x202F
    ||| n == 0x205F
    ||| n == 0x3000
}

/// Whether a character has Unicode's White_Space property.
pub fn is_space_char(c: char) -> (r: bool)
    ensures
        r == is_space(c),
{
    let n = c as u32;
    (0x09 <= n && n <= 0x0D) || n == 0x20 || n == 0x85 || n == 0xA0 || n == 0x1680 || (0x2000 <= n
        && n <= 0x200A) || n == 0x2028 || n == 0x2029 || n == 0x202F || n == 0x205F || n == 0x3000
}

/// `s` without the white space at its start.
pub open spec fn trim_start(s: Seq<char>) -> Seq<char>
    decreases s.len(),
{
    if s.len() > 0 && is_space(s[0]) {
        trim_start(s.skip(1))
    } else {
        s
    }
}

/// `s` without the white space at its end.
pub open spec fn trim_end(s: Seq<char>) -> Seq<char>
    decreases s.len(),
{
    if s.len() > 0 && is_space(s.last()) {
        trim_end(s.drop_last())
    } else {
        s
    }
}

/// `s` without the white space around it.
pub open spec fn trim(s: Seq<char>) -> Seq<char> {
    trim_end(trim_start(s))
}

/// Trimmed text neither starts nor ends with white space, and is left as it
/// is when it is trimmed again.
pub proof fn trim_is_final(s: Seq<char>)
    ensures
        trim(s).len() > 0 ==> !is_space(trim(s)[0]) && !is_space(trim(s).last()),
        trim(trim(s)) == trim(s),
{
    lemma_trim_start(s);
    lemma_trim_end(trim_start(s));
}

proof fn lemma_trim_start(s: Seq<char>)
    ensures
        trim_start(s).len() > 0 ==> !is_space(trim_start(s)[0]),
    decreases s.len(),
{
    if s.len() > 0 && is_space(s[0]) {
        lemma_trim_start(s.skip(1));
    }
}

proof fn lemma_trim_end(s: Seq<char>)
    ensures
        trim_end(s).len() <= s.len(),
        trim_end(s) == s.take(trim_end(s).len() as int),
        trim_end(s).len() > 0 ==> !is_space(trim_end(s).last()),
    decreases s.len(),
{
    if s.len() > 0 && is_space(s.last()) {
        lemma_trim_end(s.drop_last());
        assert(trim_end(s) =~= s.take(trim_end(s).len() as int));
    } else {
        assert(s =~= s.take(s.len() as int));
    }
}

/// The place of the first `c` in `s` from `from` on.
pub open spec fn find_from(s: Seq<char>, c: char, from: int) -> Option<int>
    decreases s.len() - from,
{
    if from >= s.len() {
        None
    } else if s[from] == c {
        Some(from)
    } else {
        find_from(s, c, from + 1)
    }
}

/// The characters of `text`.
pub fn chars_of(text: &str) -> (r: Vec<char>)
    ensures
        r@ == text@,
{
    let mut chars: Vec<char> = Vec::new();
    for c in iter: text.chars()
        invariant
            chars@ == text@.take(iter.index() as int),
            iter.seq() == text@,
    {
        chars.push(c);
        assert(chars@ =~= text@.take(iter.index() + 1));
    }
    assert(text@.take(text@.len() as int) =~= text@);
    chars
}

/// The characters of `text` from `from` to `to`.
pub fn piece(text: &str, from: usize, to: usize) -> (r: String)
    requires
        from <= to <= text@.len(),
    ensures
        r@ == text@.subrange(from as int, to as int),
{
    text.substring_char(from, to).to_owned()
}

/// `text` without the white space around it.
pub fn trimmed(text: &str) -> (r: String)
    ensures
        r@ == trim(text@),
{
    let chars = chars_of(text);
    let mut start: usize = 0;
    assert(text@.skip(0) =~= text@);
    while start < chars.len() && is_space_char(chars[start])
        invariant
            start <= chars@.len(),
            chars@ == text@,
            trim_start(text@) == trim_start(text@.skip(start as int)),
        decreases chars@.len() - start,
    {
        assert(text@.skip(start as int).skip(1) =~= text@.skip(start + 1));
        start += 1;
    }
    let mut end: usize = chars.len();
    assert(trim_start(text@) == text@.skip(start as int));
    assert(text@.skip(start as int) =~= text@.subrange(start as int, end as int));
    while start < end && is_space_char(chars[end - 1])
        invariant
            start <= end <= chars@.len(),
            chars@ == text@,
            trim(text@) == trim_end(text@.subrange(start as int, end as int)),
        decreases end - start,
    {
        assert(text@.subrange(start as int, end as int).drop_last() =~= text@.subrange(
            start as int,
            end - 1,
        ));
        end -= 1;
    }
    piece(text, start, end)
}

/// The place of the first `c` in `chars` from `from` on.
pub fn find_char(chars: &[char], c: char, from: usize) -> (r: Option<usize>)
    ensures
        match r {
            Some(i) => find_from(chars@, c, from as int) == Some(i as int) && from <= i
                < chars@.len(),
            None => find_from(chars@, c, from as int) is None,
        },
{
    let mut i: usize = from;
    while i < chars.len()
        invariant
            from <= i,
            find_from(chars@, c, from as int) == find_from(chars@, c, i as int),
        decreases chars@.len() - i,
    {
        if chars[i] == c {
            return Some(i);
        }
        i += 1;
    }
    None
}

/// The pieces that are left of `s` when the marked characters are taken out:
/// one more than there are marks.
pub open spec fn pieces(s: Seq<char>, marks: Seq<bool>) -> Seq<Seq<char>>
    decreases s.len(),
{
    if s.len() == 0 {
        seq![Seq::empty()]
    } else {
        let before = pieces(s.drop_last(), marks.drop_last());
        if marks.last() {
            before.push(Seq::empty())
        } else {
            before.drop_last().push(before.last().push(s.last()))
        }
    }
}

proof fn lemma_pieces_some(s: Seq<char>, marks: Seq<bool>)
    ensures
        pieces(s, marks).len() >= 1,
    decreases s.len(),
{
    if s.len() > 0 {
        lemma_pieces_some(s.drop_last(), marks.drop_last());
    }
}

/// Strings as sequences of characters.
pub open spec fn texts(strings: Seq<String>) -> Seq<Seq<char>> {
    strings.map_values(|s: String| s@)
}

/// The pieces of `text` between the marked characters.
pub fn split_at_marks(text: &str, marks: &[bool]) -> (r: Vec<String>)
    requires
        marks@.len() == text@.len(),
    ensures
        texts(r@) == pieces(text@, marks@),
{
    let mut parts: Vec<String> = Vec::new();
    let mut start: usize = 0;
    let mut i: usize = 0;
    assert(text@.take(0) =~= Seq::empty());
    assert(text@.subrange(0, 0) =~= Seq::empty());
    assert(texts(parts@).push(text@.subrange(0, 0)) =~= pieces(text@.take(0), marks@.take(0)));
    while i < marks.len()
        invariant
            start <= i <= marks@.len(),
            marks@.len() == text@.len(),
            texts(parts@).push(text@.subrange(start as int, i as int)) == pieces(
                text@.take(i as int),
                marks@.take(i as int),
            ),
        decreases marks@.len() - i,
    {
        let ghost before = pieces(text@.take(i as int), marks@.take(i as int));
        proof {
            lemma_pieces_some(text@.take(i as int), marks@.take(i as int));
            assert(text@.take(i + 1).drop_last() =~= text@.take(i as int));
            assert(marks@.take(i + 1).drop_last() =~= marks@.take(i as int));
            assert(before.drop_last() =~= texts(parts@));
            assert(before.last() == text@.subrange(start as int, i as int));
        }
        if marks[i] {
            parts.push(piece(text, start, i));
            start = i + 1;
            proof {
                assert(texts(parts@) =~= before);
                assert(text@.subrange(start as int, i + 1) =~= Seq::empty());
            }
        } else {
            assert(text@.subrange(start as int, i + 1) =~= text@.subrange(
                start as int,
                i as int,
            ).push(text@[i as int]));
        }
        i += 1;
        assert(texts(parts@).push(text@.subrange(start as int, i as int)) =~= pieces(
            text@.take(i as int),
            marks@.take(i as int),
        ));
    }
    let ghost done = parts@;
    parts.push(piece(text, start, i));
    proof {
        assert(text@.take(i as int) =~= text@);
        assert(marks@.take(i as int) =~= marks@);
        assert(texts(parts@) =~= texts(done).push(text@.subrange(start as int, i as int)));
    }
    parts
}

/// Marks on each `c` in `s`.
pub open spec fn marks_of(s: Seq<char>, c: char) -> Seq<bool> {
    Seq::new(s.len(), |i: int| s[i] == c)
}

/// Marks on each white space in `s`.
pub open spec fn space_marks(s: Seq<char>) -> Seq<bool> {
    Seq::new(s.len(), |i: int| is_space(s[i]))
}

/// The pieces of `text` between one `c` and the next.
pub fn split_on(text: &str, c: char) -> (r: Vec<String>)
    ensures
        texts(r@) == pieces(text@, marks_of(text@, c)),
{
    let chars = chars_of(text);
    let mut marks: Vec<bool> = Vec::new();
    let mut i: usize = 0;
    while i < chars.len()
        invariant
            i <= chars@.len(),
            chars@ == text@,
            marks@ == marks_of(text@, c).take(i as int),
        decreases chars@.len() - i,
    {
        marks.push(chars[i] == c);
        i += 1;
        assert(marks@ =~= marks_of(text@, c).take(i as int));
    }
    assert(marks@ =~= marks_of(text@, c));
    split_at_marks(text, marks.as_slice())
}

/// The pieces of `text` between one white space and the next.
pub fn split_on_space(text: &str) -> (r: Vec<String>)
    ensures
        texts(r@) == pieces(text@, space_marks(text@)),
{
    let chars = chars_of(text);
    let mut marks: Vec<bool> = Vec::new();
    let mut i: usize = 0;
    while i < chars.len()
        invariant
            i <= chars@.len(),
            chars@ == text@,
            marks@ == space_marks(text@).take(i as int),
        decreases chars@.len() - i,
    {
        marks.push(is_space_char(chars[i]));
        i += 1;
        assert(marks@ =~= space_marks(text@).take(i as int));
    }
    assert(marks@ =~= space_marks(text@));
    split_at_marks(text, marks.as_slice())
}

/// Whether two texts are the same.
pub fn same_text(a: &str, b: &str) -> (r: bool)
    ensures
        r == (a@ == b@),
{
    let left = chars_of(a);
    let right = chars_of(b);
    if left.len() != right.len() {
        return false;
    }
    let mut i: usize = 0;
    while i < left.len()
        invariant
            i <= left@.len(),
            left@.len() == right@.len(),
            left@ == a@,
            right@ == b@,
            forall|j: int| 0 <= j < i ==> left@[j] == right@[j],
        decreases left@.len() - i,
    {
        if left[i] != right[i] {
            return false;
        }
        i += 1;
    }
    assert(left@ =~= right@);
    true
}

/// Whether `text` starts with `prefix`.
pub fn has_prefix(text: &str, prefix: &str) -> (r: bool)
    ensures
        r == (prefix@.len() <= text@.len() && text@.take(prefix@.len() as int) == prefix@),
{
    let n = prefix.unicode_len();
    if text.unicode_len() < n {
        return false;
    }
    let start = text.substring_char(0, n);
    assert(start@ =~= text@.take(n as int));
    same_text(start, prefix)
}

/// The number that a row of decimal digits stands for.
pub open spec fn digits_value(s: Seq<char>) -> int
    decreases s.len(),
{
    if s.len() == 0 {
        0
    } else {
        digits_value(s.drop_last()) * 10 + (s.last() as int - '0' as int)
    }
}

/// A number in decimal consists of digits, stands for that number, and starts
/// with a zero only where it is zero.
pub proof fn decimal_stands_for_its_number(n: nat)
    ensures
        decimal(n).len() > 0,
        forall|i: int| 0 <= i < decimal(n).len() ==> '0' <= #[trigger] decimal(n)[i] <= '9',
        digits_value(decimal(n)) == n,
        decimal(n)[0] == '0' <==> n == 0,
    decreases n,
{
    if n < 10 {
        reveal_with_fuel(digits_value, 2);
        assert(decimal(n).drop_last() =~= Seq::empty());
    } else {
        decimal_stands_for_its_number(n / 10);
        assert(decimal(n).drop_last() =~= decimal(n / 10));
        assert(decimal(n)[0] == decimal(n / 10)[0]);
        assert forall|i: int| 0 <= i < decimal(n).len() implies '0' <= #[trigger] decimal(n)[i]
            <= '9' by {
            if i < decimal(n / 10).len() {
                assert(decimal(n)[i] == decimal(n / 10)[i]);
            }
        }
    }
}

/// The space, the tab and the ends of lines are white space; letters, digits
/// and the marks of ASCII are not.
pub proof fn ascii_space(c: char)
    ensures
        c == ' ' || c == '\t' || c == '\n' || c == '\r' ==> is_space(c),
        '!' <= c <= '~' ==> !is_space(c),
        (c as u32) < 0x09 ==> !is_space(c),
{
}

/// Whether `s` is white space alone.
pub open spec fn all_space(s: Seq<char>) -> bool {
    forall|i: int| 0 <= i < s.len() ==> is_space(#[trigger] s[i])
}

proof fn lemma_trim_start_of(before: Seq<char>, s: Seq<char>)
    requires
        all_space(before),
        s.len() > 0 ==> !is_space(s[0]),
    ensures
        trim_start(before + s) == s,
    decreases before.len(),
{
    let whole = before + s;
    if before.len() > 0 {
        assert(whole[0] == before[0]);
        assert(whole.skip(1) =~= before.skip(1) + s);
        assert forall|i: int| 0 <= i < before.skip(1).len() implies is_space(
            #[trigger] before.skip(1)[i],
        ) by {
            assert(before.skip(1)[i] == before[i + 1]);
        }
        lemma_trim_start_of(before.skip(1), s);
    } else {
        assert(whole =~= s);
    }
}

proof fn lemma_trim_end_of(s: Seq<char>, after: Seq<char>)
    requires
        all_space(after),
        s.len() > 0 ==> !is_space(s.last()),
    ensures
        trim_end(s + after) == s,
    decreases after.len(),
{
    let whole = s + after;
    if after.len() > 0 {
        assert(whole.last() == after[after.len() - 1]);
        assert(whole.drop_last() =~= s + after.drop_last());
        assert forall|i: int| 0 <= i < after.drop_last().len() implies is_space(
            #[trigger] after.drop_last()[i],
        ) by {
            assert(after.drop_last()[i] == after[i]);
        }
        lemma_trim_end_of(s, after.drop_last());
    } else {
        assert(whole =~= s);
    }
}

/// Trimming takes off the white space around text, and not a character of the
/// text.
pub proof fn trim_keeps_the_text(before: Seq<char>, s: Seq<char>, after: Seq<char>)
    requires
        all_space(before),
        all_space(after),
        s.len() > 0 ==> !is_space(s[0]) && !is_space(s.last()),
    ensures
        trim(before + s + after) == s,
{
    if s.len() > 0 {
        assert(before + s + after =~= before + (s + after));
        assert((s + after)[0] == s[0]);
        lemma_trim_start_of(before, s + after);
        lemma_trim_end_of(s, after);
    } else {
        let whole = before + s + after;
        assert(whole =~= whole + s);
        assert(whole =~= before + after);
        assert(all_space(whole));
        lemma_trim_start_of(whole, s);
        lemma_trim_end_of(s, Seq::empty());
        assert(s + Seq::<char>::empty() =~= s);
    }
}

/// The first `c` from a place on is a `c`, with none before it; where there is
/// none, no `c` stands from that place on.
pub proof fn first_is_found(s: Seq<char>, c: char, from: int)
    requires
        from >= 0,
    ensures
        match find_from(s, c, from) {
            Some(i) => from <= i < s.len() && s[i] == c && forall|j: int|
                from <= j < i ==> #[trigger] s[j] != c,
            None => forall|j: int| from <= j < s.len() ==> #[trigger] s[j] != c,
        },
    decreases s.len() - from,
{
    if from < s.len() && s[from] != c {
        first_is_found(s, c, from + 1);
    }
}

/// A place that holds the first `c` from `from` on is found.
pub proof fn first_is_found_at(s: Seq<char>, c: char, from: int, i: int)
    requires
        0 <= from <= i < s.len(),
        s[i] == c,
        forall|j: int| from <= j < i ==> #[trigger] s[j] != c,
    ensures
        find_from(s, c, from) == Some(i),
{
    first_is_found(s, c, from);
}

/// Pieces with a `c` between each and the next.
pub open spec fn joined(parts: Seq<Seq<char>>, c: char) -> Seq<char>
    decreases parts.len(),
{
    if parts.len() == 0 {
        Seq::empty()
    } else if parts.len() == 1 {
        parts[0]
    } else {
        joined(parts.drop_last(), c) + seq![c] + parts.last()
    }
}

/// Whether `c` occurs in `s`.
pub open spec fn holds_char(s: Seq<char>, c: char) -> bool {
    exists|i: int| 0 <= i < s.len() && #[trigger] s[i] == c
}

/// A marked character ends one piece and begins another, and is in neither.
pub proof fn pieces_part_at_a_mark(s: Seq<char>, c: char, t: Seq<char>, marks: Seq<bool>)
    requires
        marks.len() == s.len() + 1 + t.len(),
        marks[s.len() as int],
    ensures
        pieces(s + seq![c] + t, marks) == pieces(s, marks.take(s.len() as int)) + pieces(
            t,
            marks.skip((s.len() + 1) as int),
        ),
    decreases t.len(),
{
    let whole = s + seq![c] + t;
    let front = pieces(s, marks.take(s.len() as int));
    lemma_pieces_some(s, marks.take(s.len() as int));
    if t.len() == 0 {
        assert(whole.drop_last() =~= s);
        assert(marks.drop_last() =~= marks.take(s.len() as int));
        assert(pieces(whole, marks) =~= front + pieces(t, marks.skip((s.len() + 1) as int)));
    } else {
        let shorter = marks.drop_last();
        pieces_part_at_a_mark(s, c, t.drop_last(), shorter);
        assert(whole.drop_last() =~= s + seq![c] + t.drop_last());
        assert(shorter.take(s.len() as int) =~= marks.take(s.len() as int));
        assert(shorter.skip((s.len() + 1) as int) =~= marks.skip((s.len() + 1) as int).drop_last());
        assert(marks.skip((s.len() + 1) as int).last() == marks.last());
        let back = pieces(t.drop_last(), shorter.skip((s.len() + 1) as int));
        lemma_pieces_some(t.drop_last(), shorter.skip((s.len() + 1) as int));
        assert(pieces(whole, marks) =~= front + pieces(t, marks.skip((s.len() + 1) as int)));
    }
}

/// Text without a mark is one piece.
pub proof fn text_without_marks_is_one_piece(s: Seq<char>, marks: Seq<bool>)
    requires
        marks.len() == s.len(),
        forall|i: int| 0 <= i < marks.len() ==> !#[trigger] marks[i],
    ensures
        pieces(s, marks) == seq![s],
    decreases s.len(),
{
    if s.len() > 0 {
        assert(!marks[marks.len() - 1]);
        assert forall|i: int| 0 <= i < marks.drop_last().len() implies !#[trigger] marks.drop_last()[i] by {
            assert(marks.drop_last()[i] == marks[i]);
        }
        text_without_marks_is_one_piece(s.drop_last(), marks.drop_last());
        assert(s.drop_last().push(s.last()) =~= s);
        assert(pieces(s, marks) =~= seq![s]);
    } else {
        assert(s =~= Seq::empty());
    }
}

proof fn lemma_pieces_of_joined(
    parts: Seq<Seq<char>>,
    c: char,
    marked: spec_fn(char) -> bool,
)
    requires
        parts.len() > 0,
        marked(c),
        forall|k: int, i: int|
            0 <= k < parts.len() && 0 <= i < parts[k].len() ==> !marked(#[trigger] parts[k][i]),
    ensures
        pieces(
            joined(parts, c),
            Seq::new(joined(parts, c).len(), |i: int| marked(joined(parts, c)[i])),
        ) == parts,
    decreases parts.len(),
{
    let whole = joined(parts, c);
    let marks = Seq::new(whole.len(), |i: int| marked(whole[i]));
    if parts.len() == 1 {
        text_without_marks_is_one_piece(whole, marks);
        assert(parts =~= seq![whole]);
    } else {
        let front = parts.drop_last();
        let last = parts.last();
        let s = joined(front, c);
        assert forall|k: int, i: int|
            0 <= k < front.len() && 0 <= i < front[k].len() implies !marked(
            #[trigger] front[k][i],
        ) by {
            assert(front[k] == parts[k]);
            assert(!marked(parts[k][i]));
        }
        lemma_pieces_of_joined(front, c, marked);
        assert(marks.take(s.len() as int) =~= Seq::new(s.len(), |i: int| marked(s[i])));
        let back = marks.skip((s.len() + 1) as int);
        assert forall|i: int| 0 <= i < back.len() implies !#[trigger] back[i] by {
            assert(back[i] == marked(whole[s.len() + 1 + i]));
            assert(whole[s.len() + 1 + i] == last[i]);
            assert(!marked(parts[parts.len() - 1][i]));
        }
        assert(whole[s.len() as int] == c);
        pieces_part_at_a_mark(s, c, last, marks);
        text_without_marks_is_one_piece(last, back);
        assert(front + seq![last] =~= parts);
    }
}

/// Text that is put together with a `c` between its parts is split into those
/// parts again, if none of them holds a `c`.
pub proof fn joined_parts_are_split_again(parts: Seq<Seq<char>>, c: char)
    requires
        parts.len() > 0,
        forall|k: int| 0 <= k < parts.len() ==> !holds_char(#[trigger] parts[k], c),
    ensures
        pieces(joined(parts, c), marks_of(joined(parts, c), c)) == parts,
{
    let marked = |x: char| x == c;
    let whole = joined(parts, c);
    assert forall|k: int, i: int| 0 <= k < parts.len() && 0 <= i < parts[k].len() implies !marked(
        #[trigger] parts[k][i],
    ) by {
        assert(!holds_char(parts[k], c));
    }
    lemma_pieces_of_joined(parts, c, marked);
    assert(marks_of(whole, c) =~= Seq::new(whole.len(), |i: int| marked(whole[i])));
}

/// Words with a space between each and the next are split into those words
/// again.
pub proof fn joined_words_are_split_again(words: Seq<Seq<char>>)
    requires
        words.len() > 0,
        forall|k: int, i: int|
            0 <= k < words.len() && 0 <= i < words[k].len() ==> !is_space(#[trigger] words[k][i]),
    ensures
        pieces(joined(words, ' '), space_marks(joined(words, ' '))) == words,
{
    let marked = |x: char| is_space(x);
    let whole = joined(words, ' ');
    lemma_pieces_of_joined(words, ' ', marked);
    assert(space_marks(whole) =~= Seq::new(whole.len(), |i: int| marked(whole[i])));
}

/// White space beyond ASCII: the next line, the spaces that do not break and those
/// of a width, the separators of lines and paragraphs, and the ideographic space.
pub proof fn wide_space(c: char)
    ensures
        c == '\u{85}' || c == '\u{A0}' || c == '\u{1680}' || c == '\u{2028}' || c == '\u{2029}' || c
            == '\u{202F}' || c == '\u{205F}' || c == '\u{3000}' ==> is_space(c),
        '\u{2000}' <= c <= '\u{200A}' ==> is_space(c),
        c == '\u{B}' || c == '\u{C}' ==> is_space(c),
        '\u{E}' <= c <= '\u{1F}' || c == '\u{7F}' ==> !is_space(c),
        is_space(c) && (c as u32) > 0x7F ==> {
            ||| (c as u32) < 0xA1
            ||| c == '\u{1680}'
            ||| '\u{2000}' <= c <= '\u{200A}'
            ||| '\u{2028}' <= c <= '\u{202F}'
            ||| c == '\u{205F}'
            ||| c == '\u{3000}'
        },
        '\u{200B}' <= c <= '\u{2027}' || '\u{202A}' <= c <= '\u{202E}' || '\u{80}' <= c <= '\u{84}'
            || '\u{86}' <= c <= '\u{9F}' || c == '\u{FEFF}' ==> !is_space(c),
{
}

} // verus!
