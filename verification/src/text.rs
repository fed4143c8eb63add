//! Character-level text functions: the model of a string is its sequence of
//! characters, and every function here says exactly which characters it gives.


use vstd::prelude::*;
use vstd::string::*;

verus! {

/// `String::push` adds one character at the end of the string and keeps the rest.
pub assume_specification[ String::push ](s: &mut String, c: char)
    ensures
        final(s)@ == old(s)@.push(c),
;

/// The sequence of the texts of `parts`.
pub open spec fn texts(parts: Seq<String>) -> Seq<Seq<char>> {
    parts.map_values(|part: String| part@)
}

/// The text of an optional string.
pub open spec fn opt_text(value: Option<String>) -> Option<Seq<char>> {
    match value {
        Some(text) => Some(text@),
        None => None,
    }
}

/// The text of an optional string slice.
pub open spec fn opt_str_text(value: Option<&str>) -> Option<Seq<char>> {
    match value {
        Some(text) => Some(text@),
        None => None,
    }
}

// ---------------------------------------------------------------------------
// Conversions
// ---------------------------------------------------------------------------

/// The characters of a string slice.
pub fn chars_of(s: &str) -> (r: Vec<char>)
    ensures
        r@ == s@,
{
    let mut out: Vec<char> = Vec::new();
    for c in it: s.chars()
        invariant
            out@ == it.seq().take(it.index() as int),
            it.seq() == s@,
    {
        out.push(c);
    }
    out
}

/// The string made of the characters `from..to` of `cs`.
pub fn string_of(cs: &Vec<char>, from: usize, to: usize) -> (r: String)
    requires
        from <= to <= cs@.len(),
    ensures
        r@ == cs@.subrange(from as int, to as int),
{
    let mut out = String::new();
    let mut i: usize = from;
    while i < to
        invariant
            from <= i <= to <= cs@.len(),
            out@ == cs@.subrange(from as int, i as int),
        decreases to - i,
    {
        out.push(cs[i]);
        i = i + 1;
    }
    out
}

/// A copy of a list of strings.
pub fn clone_strings(parts: &Vec<String>) -> (r: Vec<String>)
    ensures
        r@ == parts@,
{
    let mut out: Vec<String> = Vec::new();
    let mut i: usize = 0;
    while i < parts.len()
        invariant
            i <= parts@.len(),
            out@ == parts@.take(i as int),
        decreases parts@.len() - i,
    {
        out.push(parts[i].clone());
        i = i + 1;
    }
    assert(parts@.take(i as int) == parts@);
    out
}

/// A copy of an optional string.
pub fn clone_opt(value: &Option<String>) -> (r: Option<String>)
    ensures
        r == *value,
{
    match value {
        Some(text) => Some(text.clone()),
        None => None,
    }
}

// ---------------------------------------------------------------------------
// Comparison
// ---------------------------------------------------------------------------

/// Whether two strings hold the same characters.
pub fn same_text(a: &str, b: &str) -> (r: bool)
    ensures
        r == (a@ == b@),
{
    let left = chars_of(a);
    let right = chars_of(b);
    same_chars(&left, &right)
}

/// Whether two character lists are equal.
pub fn same_chars(left: &Vec<char>, right: &Vec<char>) -> (r: bool)
    ensures
        r == (left@ == right@),
{
    if left.len() != right.len() {
        return false;
    }
    let mut i: usize = 0;
    while i < left.len()
        invariant
            i <= left@.len(),
            left@.len() == right@.len(),
            forall|j: int| 0 <= j < i ==> left@[j] == right@[j],
        decreases left@.len() - i,
    {
        if left[i] != right[i] {
            return false;
        }
        i = i + 1;
    }
    assert(left@ =~= right@);
    true
}

/// Whether an optional string is present and equal to `b`.
pub fn is_some_text(a: &Option<String>, b: &str) -> (r: bool)
    ensures
        r == (opt_text(*a) == Some(b@)),
{
    match a {
        Some(text) => same_text(text.as_str(), b),
        None => false,
    }
}

/// The dictionary order of character sequences: a proper prefix comes first,
/// otherwise the first difference decides.
pub open spec fn text_before(a: Seq<char>, b: Seq<char>) -> bool
    decreases a.len(),
{
    if b.len() == 0 {
        false
    } else if a.len() == 0 {
        true
    } else if a[0] == b[0] {
        text_before(a.drop_first(), b.drop_first())
    } else {
        a[0] < b[0]
    }
}

/// The dictionary order is irreflexive.
pub proof fn lemma_text_before_irreflexive(a: Seq<char>)
    ensures
        !text_before(a, a),
    decreases a.len(),
{
    if a.len() > 0 {
        lemma_text_before_irreflexive(a.drop_first());
    }
}

/// The dictionary order is transitive.
pub proof fn lemma_text_before_transitive(a: Seq<char>, b: Seq<char>, c: Seq<char>)
    requires
        text_before(a, b),
        text_before(b, c),
    ensures
        text_before(a, c),
    decreases a.len(),
{
    if a.len() > 0 && a[0] == b[0] && b[0] == c[0] {
        lemma_text_before_transitive(a.drop_first(), b.drop_first(), c.drop_first());
    }
}

/// Two different texts are ordered one way or the other.
pub proof fn lemma_text_before_total(a: Seq<char>, b: Seq<char>)
    requires
        a != b,
    ensures
        text_before(a, b) || text_before(b, a),
    decreases a.len(),
{
    if a.len() == 0 {
        assert(b.len() > 0) by {
            if b.len() == 0 {
                assert(a =~= b);
            }
        }
    } else if b.len() > 0 && a[0] == b[0] {
        assert(a.drop_first() != b.drop_first()) by {
            if a.drop_first() == b.drop_first() {
                assert(a =~= seq![a[0]] + a.drop_first());
                assert(b =~= seq![b[0]] + b.drop_first());
            }
        }
        lemma_text_before_total(a.drop_first(), b.drop_first());
    }
}

/// Whether `a` comes before `b` in the dictionary order.
pub fn comes_before(a: &str, b: &str) -> (r: bool)
    ensures
        r == text_before(a@, b@),
{
    let left = chars_of(a);
    let right = chars_of(b);
    let mut i: usize = 0;
    assert(left@.skip(0) == left@);
    assert(right@.skip(0) == right@);
    while i < left.len() && i < right.len()
        invariant
            i <= left@.len(),
            i <= right@.len(),
            left@ == a@,
            right@ == b@,
            text_before(left@, right@) == text_before(left@.skip(i as int), right@.skip(i as int)),
        decreases left@.len() - i,
    {
        assert(left@.skip(i as int)[0] == left@[i as int]);
        assert(right@.skip(i as int)[0] == right@[i as int]);
        if left[i] != right[i] {
            return left[i] < right[i];
        }
        assert(left@.skip(i as int).drop_first() == left@.skip(i + 1));
        assert(right@.skip(i as int).drop_first() == right@.skip(i + 1));
        i = i + 1;
    }
    i < right.len()
}

// ---------------------------------------------------------------------------
// White space and letters
// ---------------------------------------------------------------------------

/// Characters with the Unicode White_Space property.
pub open spec fn is_space(c: char) -> bool {
    ||| '\u{9}' <= c <= '\u{d}'
    ||| c == ' '
    ||| c == '\u{85}'
    ||| c == '\u{a0}'
    ||| c == '\u{1680}'
    ||| '\u{2000}' <= c <= '\u{200a}'
    ||| c == '\u{2028}'
    ||| c == '\u{2029}'
    ||| c == '\u{202f}'
    ||| c == '\u{205f}'
    ||| c == '\u{3000}'
}

/// Whether a character is white space.
pub fn char_is_space(c: char) -> (b: bool)
    ensures
        b == is_space(c),
{
    ('\u{9}' <= c && c <= '\u{d}') || c == ' ' || c == '\u{85}' || c == '\u{a0}'
        || c == '\u{1680}' || ('\u{2000}' <= c && c <= '\u{200a}') || c == '\u{2028}'
        || c == '\u{2029}' || c == '\u{202f}' || c == '\u{205f}' || c == '\u{3000}'
}

/// The text without its leading white space.
pub open spec fn trim_start(s: Seq<char>) -> Seq<char>
    decreases s.len(),
{
    if s.len() > 0 && is_space(s[0]) {
        trim_start(s.drop_first())
    } else {
        s
    }
}

/// The text without its trailing white space.
pub open spec fn trim_end(s: Seq<char>) -> Seq<char>
    decreases s.len(),
{
    if s.len() > 0 && is_space(s.last()) {
        trim_end(s.drop_last())
    } else {
        s
    }
}

/// The text without the white space at both ends.
pub open spec fn trim(s: Seq<char>) -> Seq<char> {
    trim_end(trim_start(s))
}

/// Whether nothing but white space is in the text.
pub open spec fn is_blank(s: Seq<char>) -> bool {
    trim(s).len() == 0
}

/// The position at which `trim_start` begins and the one at which `trim` ends.
fn trim_bounds(cs: &Vec<char>) -> (r: (usize, usize))
    ensures
        r.0 <= r.1 <= cs@.len(),
        trim(cs@) == cs@.subrange(r.0 as int, r.1 as int),
{
    let mut start: usize = 0;
    assert(cs@.skip(0) == cs@);
    while start < cs.len() && char_is_space(cs[start])
        invariant
            start <= cs@.len(),
            trim_start(cs@) == trim_start(cs@.skip(start as int)),
        decreases cs@.len() - start,
    {
        assert(cs@.skip(start as int).drop_first() == cs@.skip(start + 1));
        start = start + 1;
    }
    let ghost kept = cs@.skip(start as int);
    assert(trim_start(cs@) == kept);
    let mut end: usize = cs.len();
    assert(cs@.subrange(start as int, end as int) == kept);
    while end > start && char_is_space(cs[end - 1])
        invariant
            start <= end <= cs@.len(),
            trim_end(kept) == trim_end(cs@.subrange(start as int, end as int)),
        decreases end,
    {
        assert(cs@.subrange(start as int, end as int).drop_last() == cs@.subrange(
            start as int,
            end - 1,
        ));
        end = end - 1;
    }
    (start, end)
}

/// The text without the white space at both ends.
pub fn trimmed(s: &str) -> (r: String)
    ensures
        r@ == trim(s@),
{
    let cs = chars_of(s);
    let (start, end) = trim_bounds(&cs);
    string_of(&cs, start, end)
}

/// Whether nothing but white space is in the text.
pub fn blank(s: &str) -> (r: bool)
    ensures
        r == is_blank(s@),
{
    let cs = chars_of(s);
    let (start, end) = trim_bounds(&cs);
    start == end
}

/// Trimming takes white space away and nothing else: what is left neither
/// starts nor ends with it.
pub proof fn lemma_trim_ends(s: Seq<char>)
    ensures
        trim(s).len() > 0 ==> !is_space(trim(s)[0]) && !is_space(trim(s).last()),
{
    lemma_trim_start_head(s);
    lemma_trim_end_shape(trim_start(s));
}

proof fn lemma_trim_start_head(s: Seq<char>)
    ensures
        trim_start(s).len() > 0 ==> !is_space(trim_start(s)[0]),
    decreases s.len(),
{
    if s.len() > 0 && is_space(s[0]) {
        lemma_trim_start_head(s.drop_first());
    }
}

proof fn lemma_trim_end_shape(s: Seq<char>)
    ensures
        trim_end(s).len() <= s.len(),
        trim_end(s) == s.take(trim_end(s).len() as int),
        trim_end(s).len() > 0 ==> trim_end(s)[0] == s[0] && !is_space(trim_end(s).last()),
    decreases s.len(),
{
    if s.len() > 0 && is_space(s.last()) {
        lemma_trim_end_shape(s.drop_last());
        assert(trim_end(s) == s.drop_last().take(trim_end(s).len() as int));
        assert(trim_end(s) =~= s.take(trim_end(s).len() as int));
    } else {
        assert(s.take(s.len() as int) =~= s);
    }
}

/// Trimming a trimmed text changes nothing.
pub proof fn lemma_trim_idempotent(s: Seq<char>)
    ensures
        trim(trim(s)) == trim(s),
{
    lemma_trim_ends(s);
}

/// The lower-case form of an ASCII letter; any other character stays.
pub open spec fn lower_char(c: char) -> char {
    if 'A' <= c <= 'Z' {
        (c as u32 + 32) as char
    } else {
        c
    }
}

/// The text with its ASCII letters in lower case.
pub open spec fn ascii_lower(s: Seq<char>) -> Seq<char> {
    s.map_values(|c: char| lower_char(c))
}

/// The lower-case form of an ASCII letter; any other character stays.
pub fn lowered_char(c: char) -> (r: char)
    ensures
        r == lower_char(c),
{
    if 'A' <= c && c <= 'Z' {
        ((c as u8) + 32) as char
    } else {
        c
    }
}

/// The text with its ASCII letters in lower case.
pub fn lowered(s: &str) -> (r: String)
    ensures
        r@ == ascii_lower(s@),
{
    let cs = chars_of(s);
    let mut out = String::new();
    let mut i: usize = 0;
    while i < cs.len()
        invariant
            i <= cs@.len(),
            out@ == ascii_lower(cs@.take(i as int)),
        decreases cs@.len() - i,
    {
        out.push(lowered_char(cs[i]));
        i = i + 1;
        assert(out@ =~= ascii_lower(cs@.take(i as int)));
    }
    assert(cs@.take(i as int) == cs@);
    out
}

/// ASCII digits.
pub open spec fn is_digit(c: char) -> bool {
    '0' <= c <= '9'
}

/// ASCII letters.
pub open spec fn is_letter(c: char) -> bool {
    ('a' <= c <= 'z') || ('A' <= c <= 'Z')
}

/// Whether a character is an ASCII digit.
pub fn char_is_digit(c: char) -> (r: bool)
    ensures
        r == is_digit(c),
{
    '0' <= c && c <= '9'
}

/// Whether a character is an ASCII letter.
pub fn char_is_letter(c: char) -> (r: bool)
    ensures
        r == is_letter(c),
{
    ('a' <= c && c <= 'z') || ('A' <= c && c <= 'Z')
}

// ---------------------------------------------------------------------------
// Searching
// ---------------------------------------------------------------------------

/// Whether the text holds the character.
pub fn has_char(s: &str, c: char) -> (r: bool)
    ensures
        r == s@.contains(c),
{
    let cs = chars_of(s);
    let mut i: usize = 0;
    while i < cs.len()
        invariant
            i <= cs@.len(),
            cs@ == s@,
            forall|j: int| 0 <= j < i ==> cs@[j] != c,
        decreases cs@.len() - i,
    {
        if cs[i] == c {
            return true;
        }
        i = i + 1;
    }
    false
}

/// Whether the text starts with `prefix`.
pub fn has_prefix(s: &str, prefix: &str) -> (r: bool)
    ensures
        r == prefix@.is_prefix_of(s@),
{
    let cs = chars_of(s);
    let ps = chars_of(prefix);
    if ps.len() > cs.len() {
        return false;
    }
    let mut i: usize = 0;
    while i < ps.len()
        invariant
            i <= ps@.len() <= cs@.len(),
            cs@ == s@,
            ps@ == prefix@,
            forall|j: int| 0 <= j < i ==> cs@[j] == ps@[j],
        decreases ps@.len() - i,
    {
        if cs[i] != ps[i] {
            assert(cs@.subrange(0, ps@.len() as int)[i as int] != ps@[i as int]);
            return false;
        }
        i = i + 1;
    }
    assert(cs@.subrange(0, ps@.len() as int) =~= ps@);
    true
}

/// The rest of the text behind `prefix`, where it starts with it.
pub open spec fn without_prefix(s: Seq<char>, prefix: Seq<char>) -> Option<Seq<char>> {
    if prefix.is_prefix_of(s) {
        Some(s.skip(prefix.len() as int))
    } else {
        None
    }
}

/// The rest of the text behind `prefix`, where it starts with it.
pub fn strip_prefix(s: &str, prefix: &str) -> (r: Option<String>)
    ensures
        opt_text(r) == without_prefix(s@, prefix@),
{
    if has_prefix(s, prefix) {
        let cs = chars_of(s);
        let ps = chars_of(prefix);
        let rest = string_of(&cs, ps.len(), cs.len());
        assert(rest@ == s@.skip(prefix@.len() as int));
        Some(rest)
    } else {
        None
    }
}

/// Where the two characters `a`, `b` first stand side by side.
pub open spec fn first_pair(s: Seq<char>, a: char, b: char) -> Option<int>
    decreases s.len(),
{
    if s.len() < 2 {
        None
    } else if s[0] == a && s[1] == b {
        Some(0)
    } else {
        match first_pair(s.drop_first(), a, b) {
            Some(i) => Some(i + 1),
            None => None,
        }
    }
}

/// Where the pair `a`, `b` first stands in `cs` at `from` or behind it.
pub fn find_pair(cs: &Vec<char>, from: usize, a: char, b: char) -> (r: Option<usize>)
    requires
        from <= cs@.len(),
    ensures
        match r {
            Some(i) => {
                &&& first_pair(cs@.skip(from as int), a, b) == Some(i - from)
                &&& from <= i
                &&& i + 2 <= cs@.len()
                &&& cs@[i as int] == a
                &&& cs@[i + 1] == b
            },
            None => first_pair(cs@.skip(from as int), a, b) is None,
        },
{
    let mut i: usize = from;
    while i < cs.len() && cs.len() - i >= 2
        invariant
            from <= i <= cs@.len(),
            match first_pair(cs@.skip(i as int), a, b) {
                Some(k) => first_pair(cs@.skip(from as int), a, b) == Some(k + (i - from)),
                None => first_pair(cs@.skip(from as int), a, b) is None,
            },
        decreases cs@.len() - i,
    {
        if cs[i] == a && cs[i + 1] == b {
            return Some(i);
        }
        assert(cs@.skip(i as int).drop_first() == cs@.skip(i + 1));
        i = i + 1;
    }
    None
}

// ---------------------------------------------------------------------------
// Lines and lists
// ---------------------------------------------------------------------------

/// The texts with the separator between each two of them.
pub open spec fn join(parts: Seq<Seq<char>>, sep: Seq<char>) -> Seq<char>
    decreases parts.len(),
{
    if parts.len() == 0 {
        Seq::empty()
    } else if parts.len() == 1 {
        parts[0]
    } else {
        join(parts.drop_last(), sep) + sep + parts.last()
    }
}

/// The strings with the separator between each two of them.
pub fn joined(parts: &Vec<String>, sep: &str) -> (r: String)
    ensures
        r@ == join(texts(parts@), sep@),
{
    let mut out = String::new();
    let mut i: usize = 0;
    while i < parts.len()
        invariant
            i <= parts@.len(),
            out@ == join(texts(parts@.take(i as int)), sep@),
        decreases parts@.len() - i,
    {
        if i > 0 {
            out.append(sep);
        }
        out.append(parts[i].as_str());
        proof {
            let before = texts(parts@.take(i as int));
            let after = texts(parts@.take(i + 1));
            assert(after.drop_last() =~= before);
            assert(after.last() == parts@[i as int]@);
            if i == 0 {
                assert(join(after, sep@) =~= out@);
            }
        }
        i = i + 1;
    }
    assert(parts@.take(i as int) == parts@);
    out
}

/// Where the character first stands.
pub open spec fn first_char(s: Seq<char>, c: char) -> Option<int>
    decreases s.len(),
{
    if s.len() == 0 {
        None
    } else if s[0] == c {
        Some(0)
    } else {
        match first_char(s.drop_first(), c) {
            Some(i) => Some(i + 1),
            None => None,
        }
    }
}

/// Where a character first stands is inside the text.
pub proof fn lemma_first_char_in_bounds(s: Seq<char>, c: char)
    ensures
        first_char(s, c) matches Some(i) ==> 0 <= i < s.len() && s[i] == c,
    decreases s.len(),
{
    if s.len() > 0 && s[0] != c {
        lemma_first_char_in_bounds(s.drop_first(), c);
    }
}

/// Where `c` first stands in `cs` at `from` or behind it.
pub fn find_char(cs: &Vec<char>, from: usize, c: char) -> (r: Option<usize>)
    requires
        from <= cs@.len(),
    ensures
        match r {
            Some(i) => {
                &&& first_char(cs@.skip(from as int), c) == Some(i - from)
                &&& from <= i < cs@.len()
                &&& cs@[i as int] == c
            },
            None => first_char(cs@.skip(from as int), c) is None,
        },
{
    let mut i: usize = from;
    while i < cs.len()
        invariant
            from <= i <= cs@.len(),
            match first_char(cs@.skip(i as int), c) {
                Some(k) => first_char(cs@.skip(from as int), c) == Some(k + (i - from)),
                None => first_char(cs@.skip(from as int), c) is None,
            },
        decreases cs@.len() - i,
    {
        if cs[i] == c {
            return Some(i);
        }
        assert(cs@.skip(i as int).drop_first() == cs@.skip(i + 1));
        i = i + 1;
    }
    None
}

/// A line without the carriage return that stood before its line feed.
pub open spec fn without_cr(line: Seq<char>) -> Seq<char> {
    if line.len() > 0 && line.last() == '\r' {
        line.drop_last()
    } else {
        line
    }
}

/// The lines of a text: what stands before each line feed, without a carriage
/// return right before it, and what stands behind the last one if anything does.
pub open spec fn lines(s: Seq<char>) -> Seq<Seq<char>>
    decreases s.len(),
{
    if s.len() == 0 {
        Seq::empty()
    } else {
        match first_char(s, '\n') {
            Some(i) => if 0 <= i < s.len() {
                seq![without_cr(s.take(i))] + lines(s.skip(i + 1))
            } else {
                seq![s]
            },
            None => seq![s],
        }
    }
}

/// The lines of a text.
pub fn split_lines(s: &str) -> (r: Vec<String>)
    ensures
        texts(r@) == lines(s@),
{
    let cs = chars_of(s);
    let mut out: Vec<String> = Vec::new();
    let mut start: usize = 0;
    assert(cs@.skip(0) == cs@);
    assert(texts(out@) + lines(cs@) =~= lines(cs@));
    while start < cs.len()
        invariant
            start <= cs@.len(),
            texts(out@) + lines(cs@.skip(start as int)) == lines(cs@),
        decreases cs@.len() - start,
    {
        let ghost rest = cs@.skip(start as int);
        let ghost before = out@;
        match find_char(&cs, start, '\n') {
            Some(end) => {
                let stop: usize = if end > start && cs[end - 1] == '\r' {
                    end - 1
                } else {
                    end
                };
                out.push(string_of(&cs, start, stop));
                proof {
                    let i = end - start;
                    assert(rest.take(i) =~= cs@.subrange(start as int, end as int));
                    if end > start {
                        assert(rest.take(i).last() == cs@[end - 1]);
                    }
                    assert(without_cr(rest.take(i)) =~= cs@.subrange(start as int, stop as int));
                    assert(rest.skip(i + 1) =~= cs@.skip(end + 1));
                    assert(texts(out@) =~= texts(before).push(
                        cs@.subrange(start as int, stop as int),
                    ));
                    assert(texts(out@) + lines(cs@.skip(end + 1)) =~= texts(before) + lines(rest));
                }
                start = end + 1;
            },
            None => {
                out.push(string_of(&cs, start, cs.len()));
                proof {
                    assert(rest =~= cs@.subrange(start as int, cs@.len() as int));
                    assert(texts(out@) =~= texts(before).push(rest));
                    assert(cs@.skip(cs@.len() as int) =~= Seq::<char>::empty());
                    assert(texts(out@) + lines(cs@.skip(cs@.len() as int)) =~= texts(before)
                        + lines(rest));
                }
                start = cs.len();
            },
        }
    }
    proof {
        assert(cs@.skip(start as int) =~= Seq::<char>::empty());
        assert(texts(out@) + lines(cs@.skip(start as int)) =~= texts(out@));
    }
    out
}

/// The strings `from..` of a list.
pub fn strings_from(parts: &Vec<String>, from: usize) -> (r: Vec<String>)
    requires
        from <= parts@.len(),
    ensures
        r@ == parts@.skip(from as int),
{
    let mut out: Vec<String> = Vec::new();
    let mut i: usize = from;
    while i < parts.len()
        invariant
            from <= i <= parts@.len(),
            out@ == parts@.subrange(from as int, i as int),
        decreases parts@.len() - i,
    {
        out.push(parts[i].clone());
        i = i + 1;
    }
    assert(parts@.subrange(from as int, i as int) =~= parts@.skip(from as int));
    out
}

/// Whether some string of the list has the text.
pub fn list_has(parts: &Vec<String>, text: &str) -> (r: bool)
    ensures
        r == texts(parts@).contains(text@),
{
    let mut i: usize = 0;
    while i < parts.len()
        invariant
            i <= parts@.len(),
            forall|j: int| 0 <= j < i ==> parts@[j]@ != text@,
        decreases parts@.len() - i,
    {
        if same_text(parts[i].as_str(), text) {
            assert(texts(parts@)[i as int] == text@);
            return true;
        }
        i = i + 1;
    }
    assert forall|j: int| 0 <= j < texts(parts@).len() implies texts(parts@)[j] != text@ by {
        assert(texts(parts@)[j] == parts@[j]@);
    }
    false
}

// ---------------------------------------------------------------------------
// Replacing
// ---------------------------------------------------------------------------

/// The text with each `c` replaced by `with`.
pub open spec fn replace_char(s: Seq<char>, c: char, with: Seq<char>) -> Seq<char>
    decreases s.len(),
{
    if s.len() == 0 {
        Seq::empty()
    } else if s.last() == c {
        replace_char(s.drop_last(), c, with) + with
    } else {
        replace_char(s.drop_last(), c, with).push(s.last())
    }
}

/// The text with each `c` replaced by `with`.
pub fn replaced(s: &str, c: char, with: &str) -> (r: String)
    ensures
        r@ == replace_char(s@, c, with@),
{
    let cs = chars_of(s);
    let mut out = String::new();
    let mut i: usize = 0;
    while i < cs.len()
        invariant
            i <= cs@.len(),
            out@ == replace_char(cs@.take(i as int), c, with@),
        decreases cs@.len() - i,
    {
        if cs[i] == c {
            out.append(with);
        } else {
            out.push(cs[i]);
        }
        assert(cs@.take(i + 1).drop_last() == cs@.take(i as int));
        i = i + 1;
    }
    assert(cs@.take(i as int) == cs@);
    out
}

// ---------------------------------------------------------------------------
// Numbers
// ---------------------------------------------------------------------------

/// The character of a decimal digit.
pub open spec fn digit_char(d: int) -> char {
    ('0' as u32 + d) as char
}

/// The decimal digits of a number, without leading zeros.
pub open spec fn decimal(n: nat) -> Seq<char>
    decreases n,
{
    if n < 10 {
        seq![digit_char(n as int)]
    } else {
        decimal(n / 10).push(digit_char((n % 10) as int))
    }
}

/// The decimal text of a signed number.
pub open spec fn signed_decimal(n: int) -> Seq<char> {
    if n < 0 {
        seq!['-'] + decimal((-n) as nat)
    } else {
        decimal(n as nat)
    }
}

/// The decimal text of a number.
pub fn decimal_text(n: u64) -> (r: String)
    ensures
        r@ == decimal(n as nat),
    decreases n,
{
    let digit = ((n % 10) as u8 + ('0' as u8)) as char;
    let mut out = if n < 10 {
        String::new()
    } else {
        decimal_text(n / 10)
    };
    out.push(digit);
    assert(digit == digit_char((n % 10) as int));
    assert(n < 10 ==> out@ =~= decimal(n as nat));
    out
}

/// The decimal text of a signed number.
pub fn signed_decimal_text(n: i64) -> (r: String)
    ensures
        r@ == signed_decimal(n as int),
{
    if n < 0 {
        let mut out = String::new();
        out.push('-');
        let size: u64 = if n == i64::MIN {
            9_223_372_036_854_775_808u64
        } else {
            (-n) as u64
        };
        let digits = decimal_text(size);
        out.append(digits.as_str());
        assert(out@ =~= signed_decimal(n as int));
        out
    } else {
        decimal_text(n as u64)
    }
}

/// The number that a row of decimal digits stands for.
pub open spec fn digits_value(s: Seq<char>) -> nat
    decreases s.len(),
{
    if s.len() == 0 {
        0
    } else {
        (digits_value(s.drop_last()) * 10 + (s.last() as u32 - '0' as u32)) as nat
    }
}

/// The digits of an unsigned number that may have a plus sign before it.
pub open spec fn unsigned_digits(s: Seq<char>) -> Seq<char> {
    if s.len() > 0 && s[0] == '+' {
        s.drop_first()
    } else {
        s
    }
}

/// The unsigned 64-bit number that a text stands for: one or more decimal
/// digits, with an optional plus sign before them.
pub open spec fn parse_unsigned(s: Seq<char>) -> Option<u64> {
    let digits = unsigned_digits(s);
    if digits.len() > 0 && (forall|i: int| 0 <= i < digits.len() ==> is_digit(#[trigger] digits[i]))
        && digits_value(digits) <= u64::MAX {
        Some(digits_value(digits) as u64)
    } else {
        None
    }
}

proof fn lemma_digits_value_grows(s: Seq<char>, i: int)
    requires
        0 <= i <= s.len(),
        forall|j: int| 0 <= j < s.len() ==> is_digit(#[trigger] s[j]),
    ensures
        digits_value(s.take(i)) <= digits_value(s),
    decreases s.len(),
{
    if i == s.len() {
        assert(s.take(i) == s);
    } else {
        lemma_digits_value_grows(s.drop_last(), i);
        assert(s.drop_last().take(i) == s.take(i));
        assert(is_digit(s.last()));
    }
}

/// The unsigned 64-bit number that a text stands for.
pub fn parse_u64(s: &str) -> (r: Option<u64>)
    ensures
        r == parse_unsigned(s@),
{
    let all = chars_of(s);
    let from: usize = if all.len() > 0 && all[0] == '+' {
        1
    } else {
        0
    };
    let ghost digits = unsigned_digits(s@);
    assert(digits =~= all@.skip(from as int));
    if from == all.len() {
        return None;
    }
    let mut i: usize = from;
    let mut value: u64 = 0;
    assert(digits.take(0) =~= Seq::<char>::empty());
    let mut fits: bool = true;
    while i < all.len()
        invariant
            from <= i <= all@.len(),
            all@ == s@,
            digits == unsigned_digits(s@),
            digits == all@.skip(from as int),
            forall|j: int| 0 <= j < i - from ==> is_digit(#[trigger] digits[j]),
            fits ==> value == digits_value(digits.take(i - from)),
            !fits ==> digits_value(digits.take(i - from)) > u64::MAX,
        decreases all@.len() - i,
    {
        let c = all[i];
        assert(digits[i - from] == c);
        if !char_is_digit(c) {
            return None;
        }
        let d: u64 = (c as u8 - '0' as u8) as u64;
        proof {
            assert(digits.take(i - from + 1).drop_last() =~= digits.take(i - from));
            assert(digits_value(digits.take(i - from + 1)) == digits_value(digits.take(i - from))
                * 10 + d);
        }
        if fits {
            match value.checked_mul(10) {
                Some(ten) => match ten.checked_add(d) {
                    Some(next) => {
                        value = next;
                    },
                    None => {
                        fits = false;
                    },
                },
                None => {
                    fits = false;
                },
            }
        }
        i = i + 1;
    }
    assert(digits.take(i - from) =~= digits);
    if fits {
        Some(value)
    } else {
        None
    }
}

// ---------------------------------------------------------------------------
// Laws
// ---------------------------------------------------------------------------

/// Blanks are the tab, the line ends, the space and the wider spaces of Unicode;
/// letters, digits and marks are none.
pub proof fn lemma_blanks(c: char)
    ensures
        is_space(' '),
        is_space('\t'),
        is_space('\n'),
        is_space('\r'),
        is_space('\u{b}'),
        is_space('\u{c}'),
        is_space('\u{85}'),
        is_space('\u{a0}'),
        is_space('\u{3000}'),
        '\u{21}' <= c <= '\u{7e}' ==> !is_space(c),
        c < '\u{9}' ==> !is_space(c),
        '\u{e}' <= c < ' ' ==> !is_space(c),
{
}

/// Trimming takes blanks off both ends, all of them and nothing else: what is left has
/// no blank at an end, and the text is what was taken off in front, what is left, and
/// what was taken off behind.
pub proof fn lemma_trim_takes_off_blanks(s: Seq<char>) -> (ends: (Seq<char>, Seq<char>))
    ensures
        s == ends.0 + trim(s) + ends.1,
        forall|i: int| 0 <= i < ends.0.len() ==> is_space(#[trigger] ends.0[i]),
        forall|i: int| 0 <= i < ends.1.len() ==> is_space(#[trigger] ends.1[i]),
        trim(s).len() > 0 ==> !is_space(trim(s)[0]) && !is_space(trim(s).last()),
{
    let front = lemma_trim_start_takes_off(s);
    let behind = lemma_trim_end_takes_off(trim_start(s));
    lemma_trim_ends(s);
    assert(s =~= front + trim(s) + behind);
    (front, behind)
}

proof fn lemma_trim_start_takes_off(s: Seq<char>) -> (front: Seq<char>)
    ensures
        s == front + trim_start(s),
        forall|i: int| 0 <= i < front.len() ==> is_space(#[trigger] front[i]),
    decreases s.len(),
{
    if s.len() > 0 && is_space(s[0]) {
        let rest = lemma_trim_start_takes_off(s.drop_first());
        let front = seq![s[0]] + rest;
        assert(s =~= seq![s[0]] + s.drop_first());
        assert(trim_start(s) == trim_start(s.drop_first()));
        assert(seq![s[0]] + (rest + trim_start(s)) =~= front + trim_start(s));
        front
    } else {
        assert(s =~= Seq::<char>::empty() + s);
        Seq::empty()
    }
}

proof fn lemma_trim_end_takes_off(s: Seq<char>) -> (behind: Seq<char>)
    ensures
        s == trim_end(s) + behind,
        forall|i: int| 0 <= i < behind.len() ==> is_space(#[trigger] behind[i]),
    decreases s.len(),
{
    if s.len() > 0 && is_space(s.last()) {
        let rest = lemma_trim_end_takes_off(s.drop_last());
        let behind = rest.push(s.last());
        assert(s =~= s.drop_last().push(s.last()));
        assert(trim_end(s) == trim_end(s.drop_last()));
        assert((trim_end(s) + rest).push(s.last()) =~= trim_end(s) + behind);
        behind
    } else {
        assert(s =~= s + Seq::<char>::empty());
        Seq::empty()
    }
}

/// A text without blanks at its ends stays as it is.
pub proof fn lemma_trimmed_text_stays(s: Seq<char>)
    requires
        s.len() > 0 ==> !is_space(s[0]) && !is_space(s.last()),
    ensures
        trim(s) == s,
{
}

/// Capital letters become small ones, and nothing else changes.
pub proof fn lemma_small_letters(s: Seq<char>, i: int)
    requires
        0 <= i < s.len(),
    ensures
        ascii_lower(s).len() == s.len(),
        !('A' <= s[i] <= 'Z') ==> ascii_lower(s)[i] == s[i],
        'A' <= s[i] <= 'Z' ==> ascii_lower(s)[i] as u32 == s[i] as u32 + 32,
{
}

/// A text comes before another exactly if it is a proper beginning of it, or has the
/// smaller character where they first differ.
pub proof fn lemma_order_of_texts(a: Seq<char>, b: Seq<char>, front: Seq<char>)
    ensures
        text_before(front + a, front + b) <==> text_before(a, b),
        b.len() == 0 ==> !text_before(a, b),
        a.len() == 0 && b.len() > 0 ==> text_before(a, b),
        a.len() > 0 && b.len() > 0 && a[0] < b[0] ==> text_before(a, b),
        a.len() > 0 && b.len() > 0 && a[0] > b[0] ==> !text_before(a, b),
    decreases front.len(),
{
    if front.len() == 0 {
        assert(front + a =~= a);
        assert(front + b =~= b);
    } else {
        lemma_order_of_texts(a, b, front.drop_first());
        assert((front + a).drop_first() =~= front.drop_first() + a);
        assert((front + b).drop_first() =~= front.drop_first() + b);
    }
}

/// The first place of a character is one where it stands, and there is none in front
/// of it; there is none at all exactly if the character does not occur.
pub proof fn lemma_first_place(s: Seq<char>, c: char)
    ensures
        first_char(s, c) is None <==> !s.contains(c),
        first_char(s, c) matches Some(i) ==> 0 <= i < s.len() && s[i] == c && forall|j: int|
            0 <= j < i ==> #[trigger] s[j] != c,
    decreases s.len(),
{
    if s.len() > 0 {
        let rest = s.drop_first();
        lemma_first_place(rest, c);
        if s.contains(c) && s[0] != c {
            let k = choose|k: int| 0 <= k < s.len() && s[k] == c;
            assert(rest[k - 1] == c);
        }
        if rest.contains(c) {
            let k = choose|k: int| 0 <= k < rest.len() && rest[k] == c;
            assert(s[k + 1] == c);
        }
        if let Some(i) = first_char(s, c) {
            assert forall|j: int| 0 <= j < i implies #[trigger] s[j] != c by {
                if j > 0 {
                    assert(rest[j - 1] == s[j]);
                }
            }
        }
    }
}

/// The first place of a pair of characters is one where it stands, and there is none
/// in front of it; there is none at all exactly if the pair does not occur.
pub proof fn lemma_first_place_of_pair(s: Seq<char>, a: char, b: char)
    ensures
        first_pair(s, a, b) is None <==> forall|j: int|
            0 <= j < s.len() - 1 ==> !(#[trigger] s[j] == a && s[j + 1] == b),
        first_pair(s, a, b) matches Some(i) ==> 0 <= i < s.len() - 1 && s[i] == a && s[i + 1] == b
            && forall|j: int| 0 <= j < i ==> !(#[trigger] s[j] == a && s[j + 1] == b),
    decreases s.len(),
{
    if s.len() >= 2 {
        let rest = s.drop_first();
        lemma_first_place_of_pair(rest, a, b);
        if !(s[0] == a && s[1] == b) {
            match first_pair(rest, a, b) {
                Some(i) => {
                    assert(rest[i] == s[i + 1] && rest[i + 1] == s[i + 2]);
                    assert forall|j: int| 0 <= j < i + 1 implies !(#[trigger] s[j] == a && s[j + 1]
                        == b) by {
                        if j > 0 {
                            assert(rest[j - 1] == s[j] && rest[j] == s[j + 1]);
                        }
                    }
                },
                None => {
                    assert forall|j: int| 0 <= j < s.len() - 1 implies !(#[trigger] s[j] == a && s[j
                        + 1] == b) by {
                        if j > 0 {
                            assert(rest[j - 1] == s[j] && rest[j] == s[j + 1]);
                        }
                    }
                },
            }
        } else {
            assert(s[0] == a);
        }
    }
}

/// A joined list is the join of all but the last, the separator and the last; a list
/// of one is that one, and of none is empty.
pub proof fn lemma_join_parts(parts: Seq<Seq<char>>, part: Seq<char>, sep: Seq<char>)
    ensures
        join(Seq::empty(), sep).len() == 0,
        join(seq![part], sep) == part,
        parts.len() > 0 ==> join(parts.push(part), sep) == join(parts, sep) + sep + part,
{
    assert(parts.push(part).drop_last() =~= parts);
}

/// The lines of a text that was joined from lines are those lines: those without a
/// line end in them, of which the last is not empty.
pub proof fn lemma_lines_of_joined(parts: Seq<Seq<char>>)
    requires
        forall|i: int|
            0 <= i < parts.len() ==> !(#[trigger] parts[i]).contains('\n') && (parts[i].len() == 0
                || parts[i].last() != '\r'),
        parts.len() > 0 ==> parts.last().len() > 0,
    ensures
        lines(join(parts, "\n"@)) == parts,
    decreases parts.len(),
{
    reveal_strlit("\n");
    let sep = "\n"@;
    if parts.len() == 1 {
        let only = parts[0];
        lemma_first_place(only, '\n');
        assert(lines(only) =~= seq![only]);
        assert(parts =~= seq![only]);
    } else if parts.len() > 1 {
        let first = parts[0];
        let rest = parts.drop_first();
        lemma_join_from_front(parts, sep);
        let whole = join(parts, sep);
        let tail = join(rest, sep);
        assert(whole == first + sep + tail);
        assert(whole[first.len() as int] == '\n');
        lemma_first_place(whole, '\n');
        assert(whole.contains('\n'));
        let i = first_char(whole, '\n')->0;
        assert(i == first.len()) by {
            if i < first.len() {
                assert(first[i] == '\n');
                assert(first.contains('\n'));
            } else if i > first.len() {
                assert(whole[first.len() as int] != '\n');
            }
        }
        assert(whole.take(i) =~= first);
        assert(whole.skip(i + 1) =~= tail);
        assert forall|j: int| 0 <= j < rest.len() implies !(#[trigger] rest[j]).contains('\n') && (
        rest[j].len() == 0 || rest[j].last() != '\r') by {
            assert(rest[j] == parts[j + 1]);
        }
        lemma_lines_of_joined(rest);
        assert(seq![first] + rest =~= parts);
    } else {
        assert(lines(join(parts, sep)) =~= parts);
    }
}

proof fn lemma_join_from_front(parts: Seq<Seq<char>>, sep: Seq<char>)
    requires
        parts.len() > 1,
    ensures
        join(parts, sep) == parts[0] + sep + join(parts.drop_first(), sep),
    decreases parts.len(),
{
    if parts.len() > 2 {
        lemma_join_from_front(parts.drop_last(), sep);
        assert(parts.drop_last().drop_first() =~= parts.drop_first().drop_last());
        assert(join(parts, sep) =~= parts[0] + sep + join(parts.drop_first(), sep));
    } else {
        assert(parts.drop_last() =~= seq![parts[0]]);
        assert(parts.drop_first() =~= seq![parts[1]]);
        assert(join(parts.drop_last(), sep) == parts[0]);
        assert(join(parts.drop_first(), sep) == parts[1]);
    }
}

/// A carriage return in front of the end of a line belongs to that end.
pub proof fn lemma_line_ends(line: Seq<char>, rest: Seq<char>)
    requires
        !line.contains('\n'),
        line.len() == 0 || line.last() != '\r',
    ensures
        lines(line.push('\r').push('\n') + rest) == seq![line] + lines(rest),
        lines(line.push('\n') + rest) == seq![line] + lines(rest),
{
    let short = line.push('\n') + rest;
    let long = line.push('\r').push('\n') + rest;
    let n = line.len() as int;
    lemma_first_place(short, '\n');
    lemma_first_place(long, '\n');
    assert(short[n] == '\n');
    assert(long[n + 1] == '\n');
    let i = first_char(short, '\n')->0;
    let j = first_char(long, '\n')->0;
    assert(i == n) by {
        if i < n {
            assert(line[i] == '\n');
        }
    }
    assert(j == n + 1) by {
        if j < n {
            assert(line[j] == '\n');
        } else if j == n {
            assert(long[n] == '\r');
        }
    }
    assert(short.take(i) =~= line);
    assert(long.take(j) =~= line.push('\r'));
    assert(line.push('\r').drop_last() =~= line);
    assert(short.skip(i + 1) =~= rest);
    assert(long.skip(j + 1) =~= rest);
}

/// The digits of a number are read back as the number.
pub proof fn lemma_digits_are_read_back(n: u64)
    ensures
        parse_unsigned(decimal(n as nat)) == Some(n),
        parse_unsigned(seq!['+'] + decimal(n as nat)) == Some(n),
        signed_decimal(n as int) == decimal(n as nat),
        n > 0 ==> signed_decimal(-(n as int)) == seq!['-'] + decimal(n as nat),
{
    lemma_decimal_digits(n as nat);
    let digits = decimal(n as nat);
    assert(is_digit(digits[0]));
    assert((seq!['+'] + digits).drop_first() =~= digits);
}

proof fn lemma_decimal_digits(n: nat)
    ensures
        decimal(n).len() > 0,
        forall|i: int| 0 <= i < decimal(n).len() ==> is_digit(#[trigger] decimal(n)[i]),
        digits_value(decimal(n)) == n,
    decreases n,
{
    if n < 10 {
        let c = digit_char(n as int);
        assert(c as u32 == '0' as u32 + n);
        assert(seq![c].drop_last() =~= Seq::empty());
        assert(digits_value(Seq::empty()) == 0);
    } else {
        lemma_decimal_digits(n / 10);
        let front = decimal(n / 10);
        let c = digit_char((n % 10) as int);
        assert(c as u32 == '0' as u32 + n % 10);
        assert(front.push(c).drop_last() =~= front);
    }
}

/// Only digits are read as a number, and one with a sign in front, which is a plus.
pub proof fn lemma_only_digits_are_numbers(s: Seq<char>, i: int)
    ensures
        s.len() == 0 ==> parse_unsigned(s) is None,
        0 < i < s.len() && !('0' <= s[i] <= '9') ==> parse_unsigned(s) is None,
        s.len() > 0 && s[0] != '+' && !('0' <= s[0] <= '9') ==> parse_unsigned(s) is None,
{
    let digits = unsigned_digits(s);
    if 0 < i < s.len() && !('0' <= s[i] <= '9') {
        if s[0] == '+' {
            assert(digits[i - 1] == s[i]);
        } else {
            assert(digits[i] == s[i]);
        }
    }
}

/// A prefix is taken off exactly where it stands in front.
pub proof fn lemma_prefix_is_taken_off(front: Seq<char>, rest: Seq<char>)
    ensures
        without_prefix(front + rest, front) == Some(rest),
        rest.len() < front.len() ==> without_prefix(rest, front) is None,
{
    let whole = front + rest;
    assert(front =~= whole.subrange(0, front.len() as int));
    assert(whole.skip(front.len() as int) =~= rest);
}

/// Replacing a character replaces it everywhere, part by part, and nothing else.
pub proof fn lemma_replacing(s: Seq<char>, c: char, with: Seq<char>, d: char)
    ensures
        replace_char(Seq::empty(), c, with).len() == 0,
        replace_char(s.push(c), c, with) == replace_char(s, c, with) + with,
        d != c ==> replace_char(s.push(d), c, with) == replace_char(s, c, with).push(d),
{
    assert(s.push(c).drop_last() =~= s);
    assert(s.push(d).drop_last() =~= s);
}

} // verus!
