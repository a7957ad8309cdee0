//! Character-level text handling: white space, lines, words and `key: value` pairs.
//!
//! Every function here is stated over the characters of its input, so that
//! the grammar of a request template can be described exactly.

use vstd::prelude::*;
use vstd::string::*;

verus! {

/// Whether `c` is Unicode white space.
pub open spec fn is_space(c: char) -> bool {
    let n = c as u32;
    ||| 0x09 <= n <= 0x0D
    ||| n == 0x20
    ||| n == 0x85
    ||| n == 0xA0
    ||| n == 0x1680
    ||| 0x2000 <= n <= 0x200A
    ||| n == 0x2028
    ||| n == 0x2029
    ||| n == 0x202F
    ||| n == 0x205F
    ||| n == 0x3000
}

/// The first index at or after `from` whose character is `c`; `s.len()` if
/// there is none.
pub open spec fn index_of(s: Seq<char>, c: char, from: int) -> int
    decreases s.len() - from,
{
    if 0 <= from < s.len() && s[from] != c {
        index_of(s, c, from + 1)
    } else {
        from
    }
}

/// The first index at or after `from` that holds no white space; `s.len()`
/// if only white space follows.
pub open spec fn skip_spaces(s: Seq<char>, from: int) -> int
    decreases s.len() - from,
{
    if 0 <= from < s.len() && is_space(s[from]) {
        skip_spaces(s, from + 1)
    } else {
        from
    }
}

/// The first index at or after `from` that holds white space; `s.len()` if
/// none follows.
pub open spec fn skip_word(s: Seq<char>, from: int) -> int
    decreases s.len() - from,
{
    if 0 <= from < s.len() && !is_space(s[from]) {
        skip_word(s, from + 1)
    } else {
        from
    }
}

/// The end of `s.subrange(0, to)` once its trailing white space is removed.
pub open spec fn trim_end(s: Seq<char>, to: int) -> int
    decreases to,
{
    if 0 < to <= s.len() && is_space(s[to - 1]) {
        trim_end(s, to - 1)
    } else {
        to
    }
}

/// `s` without its leading and trailing white space.
pub open spec fn trimmed(s: Seq<char>) -> Seq<char> {
    let start = skip_spaces(s, 0);
    if start >= s.len() {
        Seq::empty()
    } else {
        s.subrange(start, trim_end(s, s.len() as int))
    }
}

/// `s` without one trailing carriage return.
pub open spec fn strip_cr(s: Seq<char>) -> Seq<char> {
    if s.len() > 0 && s.last() == '\r' {
        s.drop_last()
    } else {
        s
    }
}

/// The lines of `s` from index `from` on. A line ends at a line feed, which
/// is dropped together with a carriage return directly before it. Text after
/// the last line feed is a line of its own unless it is empty.
pub open spec fn lines_from(s: Seq<char>, from: int) -> Seq<Seq<char>>
    decreases s.len() - from,
{
    if from < 0 || from >= s.len() {
        Seq::empty()
    } else {
        let end = index_of(s, '\n', from);
        if end >= s.len() {
            seq![s.subrange(from, s.len() as int)]
        } else {
            proof {
                lemma_index_of_bounds(s, '\n', from);
            }
            seq![strip_cr(s.subrange(from, end))] + lines_from(s, end + 1)
        }
    }
}

/// The lines of `s`.
pub open spec fn lines_of(s: Seq<char>) -> Seq<Seq<char>> {
    lines_from(s, 0)
}

/// The words of `s` from index `from` on: the maximal runs of characters
/// that are not white space.
pub open spec fn words_from(s: Seq<char>, from: int) -> Seq<Seq<char>>
    decreases s.len() - from,
{
    let start = skip_spaces(s, from);
    if from < 0 || start >= s.len() {
        Seq::empty()
    } else {
        let end = skip_word(s, start);
        proof {
            lemma_skip_spaces_bounds(s, from);
            lemma_skip_word_bounds(s, start);
        }
        seq![s.subrange(start, end)] + words_from(s, end)
    }
}

/// The words of `s`.
pub open spec fn words_of(s: Seq<char>) -> Seq<Seq<char>> {
    words_from(s, 0)
}

/// `s` cut at its first `c`: what stands before it and what stands after
/// it, each trimmed. `None` if `s` holds no `c`.
pub open spec fn pair_at(s: Seq<char>, c: char) -> Option<(Seq<char>, Seq<char>)> {
    let i = index_of(s, c, 0);
    if i >= s.len() {
        None
    } else {
        Some((trimmed(s.subrange(0, i)), trimmed(s.subrange(i + 1, s.len() as int))))
    }
}

/// The texts `parts[from..]` written one after the other with nothing
/// between them.
pub open spec fn joined(parts: Seq<Seq<char>>, from: int) -> Seq<char>
    decreases parts.len() - from,
{
    if from < 0 || from >= parts.len() {
        Seq::empty()
    } else {
        parts[from] + joined(parts, from + 1)
    }
}

/// The code point of `c`, with an ASCII capital letter taken as its small
/// letter.
pub open spec fn folded(c: char) -> u32 {
    let n = c as u32;
    if 0x41 <= n <= 0x5A {
        (n + 0x20) as u32
    } else {
        n
    }
}

/// Whether `a` and `b` are equal up to the case of their ASCII letters.
pub open spec fn same_ignoring_case(a: Seq<char>, b: Seq<char>) -> bool {
    &&& a.len() == b.len()
    &&& forall|i: int| 0 <= i < a.len() ==> folded(a[i]) == folded(#[trigger] b[i])
}

/// The character sequences that a sequence of strings stands for.
pub open spec fn views(v: Seq<String>) -> Seq<Seq<char>> {
    v.map_values(|s: String| s@)
}

/// The first `c` at or after `from` stands between `from` and the end of
/// the text, and no `c` stands between `from` and it.
pub proof fn lemma_index_of_bounds(s: Seq<char>, c: char, from: int)
    requires
        0 <= from <= s.len(),
    ensures
        from <= index_of(s, c, from) <= s.len(),
        index_of(s, c, from) < s.len() ==> s[index_of(s, c, from)] == c,
        forall|i: int| from <= i < index_of(s, c, from) ==> s[i] != c,
    decreases s.len() - from,
{
    if from < s.len() && s[from] != c {
        lemma_index_of_bounds(s, c, from + 1);
    }
}

/// What `skip_spaces` finds stands between `from` and the end of the text,
/// is no white space, and has only white space between `from` and it.
pub proof fn lemma_skip_spaces_bounds(s: Seq<char>, from: int)
    requires
        0 <= from <= s.len(),
    ensures
        from <= skip_spaces(s, from) <= s.len(),
        skip_spaces(s, from) < s.len() ==> !is_space(s[skip_spaces(s, from)]),
        forall|i: int| from <= i < skip_spaces(s, from) ==> is_space(s[i]),
    decreases s.len() - from,
{
    if from < s.len() && is_space(s[from]) {
        lemma_skip_spaces_bounds(s, from + 1);
    }
}

/// What `skip_word` finds stands between `from` and the end of the text,
/// is white space, and has no white space between `from` and it. A word is
/// not empty.
pub proof fn lemma_skip_word_bounds(s: Seq<char>, from: int)
    requires
        0 <= from <= s.len(),
    ensures
        from <= skip_word(s, from) <= s.len(),
        from < s.len() && !is_space(s[from]) ==> from < skip_word(s, from),
        skip_word(s, from) < s.len() ==> is_space(s[skip_word(s, from)]),
        forall|i: int| from <= i < skip_word(s, from) ==> !is_space(s[i]),
    decreases s.len() - from,
{
    if from < s.len() && !is_space(s[from]) {
        lemma_skip_word_bounds(s, from + 1);
    }
}

/// What `trim_end` finds is at most `to`, stands behind every character
/// before `to` that is no white space, and has no white space before it.
pub proof fn lemma_trim_end_bounds(s: Seq<char>, to: int)
    requires
        0 <= to <= s.len(),
    ensures
        0 <= trim_end(s, to) <= to,
        trim_end(s, to) > 0 ==> !is_space(s[trim_end(s, to) - 1]),
        forall|i: int| 0 <= i < to && !is_space(s[i]) ==> i < trim_end(s, to),
    decreases to,
{
    if 0 < to && is_space(s[to - 1]) {
        lemma_trim_end_bounds(s, to - 1);
    }
}

/// A trimmed text neither starts nor ends with white space.
pub proof fn lemma_trimmed_edges(s: Seq<char>)
    ensures
        trimmed(s).len() > 0 ==> !is_space(trimmed(s).first()) && !is_space(trimmed(s).last()),
        trimmed(s).len() <= s.len(),
{
    lemma_skip_spaces_bounds(s, 0);
    lemma_trim_end_bounds(s, s.len() as int);
}

/// Trimming a text that neither starts nor ends with white space changes
/// nothing.
pub proof fn lemma_trimmed_fixed(s: Seq<char>)
    requires
        s.len() > 0 ==> !is_space(s.first()) && !is_space(s.last()),
    ensures
        trimmed(s) == s,
{
    if s.len() > 0 {
        assert(s.subrange(0, s.len() as int) =~= s);
    }
}

/// The first `c` at or after `from` stands at `at` if no `c` stands between
/// them.
pub proof fn lemma_index_of_at(s: Seq<char>, c: char, from: int, at: int)
    requires
        0 <= from <= at <= s.len(),
        forall|i: int| from <= i < at ==> s[i] != c,
        at < s.len() ==> s[at] == c,
    ensures
        index_of(s, c, from) == at,
    decreases at - from,
{
    if from < at {
        lemma_index_of_at(s, c, from + 1, at);
    }
}

/// Tests a character for white space.
pub fn char_is_space(c: char) -> (b: bool)
    ensures
        b == is_space(c),
{
    let n: u32 = c as u32;
    (0x09 <= n && n <= 0x0D) || n == 0x20 || n == 0x85 || n == 0xA0 || n == 0x1680 || (0x2000 <= n
        && n <= 0x200A) || n == 0x2028 || n == 0x2029 || n == 0x202F || n == 0x205F || n == 0x3000
}

/// The characters of a string, in order.
pub fn chars_of(s: &str) -> (v: Vec<char>)
    ensures
        v@ == s@,
{
    let mut v: Vec<char> = Vec::new();
    for c in it: s.chars()
        invariant
            v@ == it.seq().take(it.index() as int),
            it.seq() == s@,
    {
        v.push(c);
    }
    v
}

/// Finds the first `c` at or after `from`.
pub fn find_char(chars: &Vec<char>, c: char, from: usize) -> (r: usize)
    requires
        from <= chars.len(),
    ensures
        r == index_of(chars@, c, from as int),
        from <= r <= chars.len(),
{
    let mut i: usize = from;
    while i < chars.len() && chars[i] != c
        invariant
            from <= i <= chars.len(),
            index_of(chars@, c, from as int) == index_of(chars@, c, i as int),
        decreases chars.len() - i,
    {
        i += 1;
    }
    i
}

/// Finds the first character at or after `from` that is no white space.
pub fn find_word(chars: &Vec<char>, from: usize) -> (r: usize)
    requires
        from <= chars.len(),
    ensures
        r == skip_spaces(chars@, from as int),
        from <= r <= chars.len(),
{
    let mut i: usize = from;
    while i < chars.len() && char_is_space(chars[i])
        invariant
            from <= i <= chars.len(),
            skip_spaces(chars@, from as int) == skip_spaces(chars@, i as int),
        decreases chars.len() - i,
    {
        i += 1;
    }
    i
}

/// Finds the first white space at or after `from`.
pub fn find_space(chars: &Vec<char>, from: usize) -> (r: usize)
    requires
        from <= chars.len(),
    ensures
        r == skip_word(chars@, from as int),
        from <= r <= chars.len(),
{
    let mut i: usize = from;
    while i < chars.len() && !char_is_space(chars[i])
        invariant
            from <= i <= chars.len(),
            skip_word(chars@, from as int) == skip_word(chars@, i as int),
        decreases chars.len() - i,
    {
        i += 1;
    }
    i
}

/// Removes leading and trailing white space.
pub fn trim(s: &str) -> (t: String)
    ensures
        t@ == trimmed(s@),
{
    let chars = chars_of(s);
    let start = find_word(&chars, 0);
    if start >= chars.len() {
        String::new()
    } else {
        let mut end: usize = chars.len();
        while end > 0 && char_is_space(chars[end - 1])
            invariant
                0 <= end <= chars.len(),
                trim_end(chars@, chars.len() as int) == trim_end(chars@, end as int),
            decreases end,
        {
            end -= 1;
        }
        proof {
            lemma_skip_spaces_bounds(chars@, 0);
            lemma_trim_end_bounds(chars@, chars.len() as int);
        }
        s.substring_char(start, end).to_owned()
    }
}

/// Cuts a text into its lines.
pub fn split_lines(text: &str) -> (lines: Vec<String>)
    ensures
        views(lines@) == lines_of(text@),
{
    let chars = chars_of(text);
    let mut lines: Vec<String> = Vec::new();
    let mut from: usize = 0;
    while from < chars.len()
        invariant
            from <= chars.len(),
            chars@ == text@,
            views(lines@) + lines_from(text@, from as int) == lines_of(text@),
        decreases chars.len() - from,
    {
        let end = find_char(&chars, '\n', from);
        let ghost before = views(lines@);
        if end >= chars.len() {
            let line = text.substring_char(from, chars.len()).to_owned();
            lines.push(line);
            proof {
                assert(views(lines@) =~= before.push(line@));
                assert(lines_from(text@, chars.len() as int) =~= Seq::<Seq<char>>::empty());
                assert(before.push(line@) + Seq::<Seq<char>>::empty() =~= before + seq![line@]);
            }
            from = chars.len();
        } else {
            let stop = if end > from && chars[end - 1] == '\r' {
                end - 1
            } else {
                end
            };
            let line = text.substring_char(from, stop).to_owned();
            lines.push(line);
            proof {
                let whole = text@.subrange(from as int, end as int);
                if end > from && chars[end - 1] == '\r' {
                    assert(whole.drop_last() =~= text@.subrange(from as int, stop as int));
                }
                assert(line@ == strip_cr(whole));
                assert(views(lines@) =~= before.push(line@));
                assert(before.push(line@) + lines_from(text@, end + 1) =~= before + (seq![line@]
                    + lines_from(text@, end + 1)));
            }
            from = end + 1;
        }
    }
    proof {
        assert(lines_from(text@, from as int) =~= Seq::<Seq<char>>::empty());
        assert(views(lines@) + Seq::<Seq<char>>::empty() =~= views(lines@));
    }
    lines
}

/// Cuts a text into its words.
pub fn split_words(text: &str) -> (words: Vec<String>)
    ensures
        views(words@) == words_of(text@),
{
    let chars = chars_of(text);
    let mut words: Vec<String> = Vec::new();
    let mut from: usize = 0;
    loop
        invariant_except_break
            from <= chars.len(),
            chars@ == text@,
            views(words@) + words_from(text@, from as int) == words_of(text@),
        ensures
            views(words@) == words_of(text@),
        decreases chars.len() - from,
    {
        let start = find_word(&chars, from);
        if start >= chars.len() {
            proof {
                assert(views(words@) + Seq::<Seq<char>>::empty() =~= views(words@));
            }
            break ;
        }
        let end = find_space(&chars, start);
        proof {
            lemma_skip_spaces_bounds(chars@, from as int);
            lemma_skip_word_bounds(chars@, start as int);
        }
        let ghost before = views(words@);
        let word = text.substring_char(start, end).to_owned();
        words.push(word);
        proof {
            assert(views(words@) =~= before.push(word@));
            assert(before.push(word@) + words_from(text@, end as int) =~= before + (seq![word@]
                + words_from(text@, end as int)));
        }
        from = end;
    }
    words
}

/// Cuts a text at its first `c` and trims both sides.
pub fn split_pair(s: &str, c: char) -> (r: Option<(String, String)>)
    ensures
        match pair_at(s@, c) {
            None => r is None,
            Some((left, right)) => r matches Some((k, v)) && k@ == left && v@ == right,
        },
{
    let chars = chars_of(s);
    let i = find_char(&chars, c, 0);
    if i >= chars.len() {
        None
    } else {
        let left = trim(s.substring_char(0, i));
        let right = trim(s.substring_char(i + 1, chars.len()));
        Some((left, right))
    }
}

/// Writes `parts[from..]` one after the other.
pub fn join_from(parts: &Vec<String>, from: usize) -> (out: String)
    ensures
        out@ == joined(views(parts@), from as int),
{
    let mut out = String::new();
    let mut i: usize = from;
    while i < parts.len()
        invariant
            out@ + joined(views(parts@), i as int) == joined(views(parts@), from as int),
        decreases parts.len() - i,
    {
        let ghost before = out@;
        out.append(parts[i].as_str());
        proof {
            assert(views(parts@)[i as int] == parts@[i as int]@);
            assert(before + (parts@[i as int]@ + joined(views(parts@), i + 1)) =~= (before
                + parts@[i as int]@) + joined(views(parts@), i + 1));
        }
        i += 1;
    }
    proof {
        assert(out@ + Seq::<char>::empty() =~= out@);
    }
    out
}

/// Compares two texts character by character.
pub fn same_text(a: &str, b: &str) -> (r: bool)
    ensures
        r == (a@ == b@),
{
    let x = chars_of(a);
    let y = chars_of(b);
    if x.len() != y.len() {
        return false;
    }
    let mut i: usize = 0;
    while i < x.len()
        invariant
            x.len() == y.len(),
            x@ == a@,
            y@ == b@,
            i <= x.len(),
            forall|j: int| 0 <= j < i ==> x@[j] == y@[j],
        decreases x.len() - i,
    {
        if x[i] != y[i] {
            return false;
        }
        i += 1;
    }
    proof {
        assert(x@ =~= y@);
    }
    true
}

/// The code point of a character, ASCII capitals folded to small letters.
pub fn fold_char(c: char) -> (n: u32)
    ensures
        n == folded(c),
{
    let n: u32 = c as u32;
    if 0x41 <= n && n <= 0x5A {
        n + 0x20
    } else {
        n
    }
}

/// Compares two texts up to the case of their ASCII letters.
pub fn same_name(a: &str, b: &str) -> (r: bool)
    ensures
        r == same_ignoring_case(a@, b@),
{
    let x = chars_of(a);
    let y = chars_of(b);
    if x.len() != y.len() {
        return false;
    }
    let mut i: usize = 0;
    while i < x.len()
        invariant
            x.len() == y.len(),
            x@ == a@,
            y@ == b@,
            i <= x.len(),
            forall|j: int| 0 <= j < i ==> folded(x@[j]) == folded(#[trigger] y@[j]),
        decreases x.len() - i,
    {
        if fold_char(x[i]) != fold_char(y[i]) {
            return false;
        }
        i += 1;
    }
    true
}

} // verus!
