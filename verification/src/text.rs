//! Characters and strings: splitting, trimming, comparing, numbers in decimal, bytes in
//! hexadecimal, and the passage between UTF-8 bytes and text.

use vstd::prelude::*;
use vstd::string::*;
use vstd::utf8::*;

verus! {

// ---------------------------------------------------------------------------
// Characters
// ---------------------------------------------------------------------------

/// The Unicode `White_Space` property.
pub open spec fn is_white_space(c: char) -> bool {
    let u = c as u32;
    ||| 0x09 <= u <= 0x0d
    ||| u == 0x20
    ||| u == 0x85
    ||| u == 0xa0
    ||| u == 0x1680
    ||| 0x2000 <= u <= 0x200a
    ||| u == 0x2028
    ||| u == 0x2029
    ||| u == 0x202f
    ||| u == 0x205f
    ||| u == 0x3000
}

/// The white space of ASCII: tab, line feed, form feed, carriage return and space.
pub open spec fn is_ascii_space(c: char) -> bool {
    c == '\t' || c == '\n' || c == '\u{c}' || c == '\r' || c == ' '
}

/// Letters and digits of ASCII.
pub open spec fn is_ascii_alphanumeric(c: char) -> bool {
    ('a' <= c <= 'z') || ('A' <= c <= 'Z') || ('0' <= c <= '9')
}

/// The lower-case form of an ASCII letter; every other character unchanged.
pub open spec fn ascii_lower(c: char) -> char {
    if 'A' <= c <= 'Z' {
        ((c as u32) + 32) as char
    } else {
        c
    }
}

/// Whether `c` has the Unicode `White_Space` property.
pub fn white_space(c: char) -> (r: bool)
    ensures
        r == is_white_space(c),
{
    let u: u32 = c as u32;
    (0x09 <= u && u <= 0x0d) || u == 0x20 || u == 0x85 || u == 0xa0 || u == 0x1680 || (0x2000 <= u
        && u <= 0x200a) || u == 0x2028 || u == 0x2029 || u == 0x202f || u == 0x205f || u == 0x3000
}

/// Whether `c` is ASCII white space.
pub fn ascii_space(c: char) -> (r: bool)
    ensures
        r == is_ascii_space(c),
{
    c == '\t' || c == '\n' || c == '\u{c}' || c == '\r' || c == ' '
}

/// Whether `c` is an ASCII letter or digit.
pub fn ascii_alphanumeric(c: char) -> (r: bool)
    ensures
        r == is_ascii_alphanumeric(c),
{
    ('a' <= c && c <= 'z') || ('A' <= c && c <= 'Z') || ('0' <= c && c <= '9')
}

/// The lower-case form of an ASCII letter.
pub fn to_ascii_lower(c: char) -> (r: char)
    ensures
        r == ascii_lower(c),
{
    if 'A' <= c && c <= 'Z' {
        let b: u8 = c as u8;
        (b + 32) as char
    } else {
        c
    }
}

// ---------------------------------------------------------------------------
// Strings and sequences of characters
// ---------------------------------------------------------------------------

/// `String::push` appends one character.
pub assume_specification[ String::push ](s: &mut String, c: char)
    ensures
        final(s)@ == old(s)@.push(c),
;

/// The characters of a string.
pub fn chars_of(s: &str) -> (r: Vec<char>)
    ensures
        r@ == s@,
{
    let mut r: Vec<char> = Vec::new();
    for c in it: s.chars()
        invariant
            it.seq() == s@,
            r@ == s@.take(it.index()),
    {
        r.push(c);
        assert(s@.take(it.index() + 1) =~= s@.take(it.index()).push(c));
    }
    assert(s@.take(s@.len() as int) =~= s@);
    r
}

/// The string made of the given characters.
pub fn text_of(chars: &[char]) -> (r: String)
    ensures
        r@ == chars@,
{
    let mut r: String = String::new();
    let mut i: usize = 0;
    while i < chars.len()
        invariant
            i <= chars.len(),
            r@ == chars@.take(i as int),
        decreases chars.len() - i,
    {
        r.push(chars[i]);
        assert(chars@.take(i + 1) =~= chars@.take(i as int).push(chars@[i as int]));
        i = i + 1;
    }
    assert(chars@.take(i as int) =~= chars@);
    r
}

/// Whether two strings hold the same characters.
pub fn same_text(a: &str, b: &str) -> (r: bool)
    ensures
        r == (a@ == b@),
{
    let x: &[u8] = a.as_bytes();
    let y: &[u8] = b.as_bytes();
    proof {
        encode_utf8_decode_utf8(a@);
        encode_utf8_decode_utf8(b@);
    }
    same_bytes(x, y)
}

/// Whether two byte slices are equal.
pub fn same_bytes(x: &[u8], y: &[u8]) -> (r: bool)
    ensures
        r == (x@ == y@),
{
    if x.len() != y.len() {
        return false;
    }
    let mut i: usize = 0;
    while i < x.len()
        invariant
            i <= x.len(),
            x.len() == y.len(),
            forall|j: int| 0 <= j < i ==> x@[j] == y@[j],
        decreases x.len() - i,
    {
        if x[i] != y[i] {
            return false;
        }
        i = i + 1;
    }
    assert(x@ =~= y@);
    true
}

// ---------------------------------------------------------------------------
// Splitting and trimming
// ---------------------------------------------------------------------------

/// The contents of a vector of character vectors.
pub open spec fn views(v: Seq<Vec<char>>) -> Seq<Seq<char>> {
    Seq::new(v.len(), |i: int| v[i]@)
}

/// The pieces of `s` between occurrences of `sep`. A separator ends the current piece and
/// starts an empty one; any other character is added to the current piece.
pub open spec fn pieces(s: Seq<char>, sep: char) -> Seq<Seq<char>>
    decreases s.len(),
{
    if s.len() == 0 {
        seq![s]
    } else {
        let before = pieces(s.drop_last(), sep);
        if s.last() == sep {
            before.push(Seq::empty())
        } else {
            before.drop_last().push(before.last().push(s.last()))
        }
    }
}

/// The pieces of `s` between occurrences of carriage return followed by line feed.
pub open spec fn lines(s: Seq<char>) -> Seq<Seq<char>>
    decreases s.len(),
{
    if s.len() == 0 {
        seq![s]
    } else {
        let before = lines(s.drop_last());
        let current = before.last();
        if s.last() == '\n' && current.len() > 0 && current.last() == '\r' {
            before.drop_last().push(current.drop_last()).push(Seq::empty())
        } else {
            before.drop_last().push(current.push(s.last()))
        }
    }
}

/// The maximal runs of characters of `s` without white space.
pub open spec fn words(s: Seq<char>) -> Seq<Seq<char>>
    decreases s.len(),
{
    if s.len() == 0 {
        Seq::empty()
    } else {
        let before = words(s.drop_last());
        if is_white_space(s.last()) {
            before
        } else if s.len() == 1 || is_white_space(s[s.len() - 2]) {
            before.push(seq![s.last()])
        } else {
            before.drop_last().push(before.last().push(s.last()))
        }
    }
}

/// The position of the first `c` in `s`, or the length of `s` where there is none.
pub open spec fn find(s: Seq<char>, c: char) -> nat
    decreases s.len(),
{
    if s.len() == 0 || s[0] == c {
        0
    } else {
        1 + find(s.drop_first(), c)
    }
}

/// `s` without white space at its two ends.
pub open spec fn trimmed(s: Seq<char>) -> Seq<char>
    decreases s.len(),
{
    if s.len() > 0 && is_white_space(s[0]) {
        trimmed(s.drop_first())
    } else if s.len() > 0 && is_white_space(s.last()) {
        trimmed(s.drop_last())
    } else {
        s
    }
}

/// `s` without the run of `c` at its end.
pub open spec fn without_trailing(s: Seq<char>, c: char) -> Seq<char>
    decreases s.len(),
{
    if s.len() > 0 && s.last() == c {
        without_trailing(s.drop_last(), c)
    } else {
        s
    }
}

/// The characters of `s` that are no white space, in order.
pub open spec fn without_white_space(s: Seq<char>) -> Seq<char> {
    s.filter(|c: char| !is_white_space(c))
}

/// Whether two strings differ at most in the case of ASCII letters.
pub open spec fn equal_ignoring_case(a: Seq<char>, b: Seq<char>) -> bool {
    &&& a.len() == b.len()
    &&& forall|i: int| 0 <= i < a.len() ==> ascii_lower(#[trigger] a[i]) == ascii_lower(b[i])
}

pub proof fn lemma_pieces_nonempty(s: Seq<char>, sep: char)
    ensures
        pieces(s, sep).len() > 0,
    decreases s.len(),
{
    if s.len() > 0 {
        lemma_pieces_nonempty(s.drop_last(), sep);
    }
}

pub proof fn lemma_lines_nonempty(s: Seq<char>)
    ensures
        lines(s).len() > 0,
    decreases s.len(),
{
    if s.len() > 0 {
        lemma_lines_nonempty(s.drop_last());
    }
}

/// The pieces of a string between occurrences of a separator.
pub fn split_pieces(s: &[char], sep: char) -> (r: Vec<Vec<char>>)
    ensures
        views(r@) == pieces(s@, sep),
        r@.len() > 0,
{
    let mut done: Vec<Vec<char>> = Vec::new();
    let mut current: Vec<char> = Vec::new();
    let mut i: usize = 0;
    assert(s@.take(0) =~= Seq::empty());
    assert(views(done@).push(current@) =~= pieces(s@.take(0), sep));
    while i < s.len()
        invariant
            i <= s.len(),
            views(done@).push(current@) == pieces(s@.take(i as int), sep),
        decreases s.len() - i,
    {
        let c: char = s[i];
        let ghost before = pieces(s@.take(i as int), sep);
        assert(s@.take(i + 1).drop_last() =~= s@.take(i as int));
        assert(before.last() == current@);
        assert(before.drop_last() =~= views(done@));
        if c == sep {
            done.push(current);
            current = Vec::new();
            assert(views(done@) =~= before);
        } else {
            current.push(c);
        }
        assert(views(done@).push(current@) =~= pieces(s@.take(i + 1), sep));
        i = i + 1;
    }
    assert(s@.take(i as int) =~= s@);
    let ghost all = views(done@).push(current@);
    done.push(current);
    assert(views(done@) =~= all);
    done
}

/// The pieces of a string between line ends (carriage return, line feed).
pub fn split_lines(s: &[char]) -> (r: Vec<Vec<char>>)
    ensures
        views(r@) == lines(s@),
        r@.len() > 0,
{
    let mut done: Vec<Vec<char>> = Vec::new();
    let mut current: Vec<char> = Vec::new();
    let mut i: usize = 0;
    assert(s@.take(0) =~= Seq::empty());
    assert(views(done@).push(current@) =~= lines(s@.take(0)));
    while i < s.len()
        invariant
            i <= s.len(),
            views(done@).push(current@) == lines(s@.take(i as int)),
        decreases s.len() - i,
    {
        let c: char = s[i];
        let ghost before = lines(s@.take(i as int));
        assert(s@.take(i + 1).drop_last() =~= s@.take(i as int));
        assert(before.last() == current@);
        assert(before.drop_last() =~= views(done@));
        if c == '\n' && current.len() > 0 && current[current.len() - 1] == '\r' {
            let ghost line = current@.drop_last();
            current.pop();
            assert(current@ =~= line);
            done.push(current);
            current = Vec::new();
            assert(views(done@) =~= before.drop_last().push(line));
        } else {
            current.push(c);
        }
        assert(views(done@).push(current@) =~= lines(s@.take(i + 1)));
        i = i + 1;
    }
    assert(s@.take(i as int) =~= s@);
    let ghost all = views(done@).push(current@);
    done.push(current);
    assert(views(done@) =~= all);
    done
}

/// The words of a string: its runs of characters without white space.
pub fn split_words(s: &[char]) -> (r: Vec<Vec<char>>)
    ensures
        views(r@) == words(s@),
{
    let mut done: Vec<Vec<char>> = Vec::new();
    let mut current: Vec<char> = Vec::new();
    let mut i: usize = 0;
    assert(views(done@) =~= words(s@.take(0)));
    while i < s.len()
        invariant
            i <= s.len(),
            current@.len() == 0 <==> (i == 0 || is_white_space(s@[i - 1])),
            words(s@.take(i as int)) == (if current@.len() == 0 {
                views(done@)
            } else {
                views(done@).push(current@)
            }),
        decreases s.len() - i,
    {
        let c: char = s[i];
        let ghost before = words(s@.take(i as int));
        let ghost had = done@;
        let ghost run = current@;
        assert(s@.take(i + 1).drop_last() =~= s@.take(i as int));
        if white_space(c) {
            if current.len() > 0 {
                done.push(current);
                current = Vec::new();
                assert(views(done@) =~= views(had).push(run));
            }
        } else {
            current.push(c);
            proof {
                if run.len() == 0 {
                    assert(current@ =~= seq![c]);
                } else {
                    assert(before.last() == run);
                    assert(before.drop_last() =~= views(done@));
                }
            }
        }
        i = i + 1;
    }
    assert(s@.take(i as int) =~= s@);
    if current.len() > 0 {
        let ghost all = views(done@).push(current@);
        done.push(current);
        assert(views(done@) =~= all);
    }
    done
}

/// A position with nothing equal before it is what `find` finds.
pub proof fn lemma_find_is(s: Seq<char>, c: char, i: int)
    requires
        0 <= i <= s.len(),
        forall|j: int| 0 <= j < i ==> s[j] != c,
        i < s.len() ==> s[i] == c,
    ensures
        find(s, c) == i,
    decreases s.len(),
{
    if s.len() > 0 && s[0] != c {
        lemma_find_is(s.drop_first(), c, i - 1);
    }
}

/// What `find` finds: nothing before the position is `c`, and the character there is.
pub proof fn lemma_find(s: Seq<char>, c: char)
    ensures
        find(s, c) <= s.len(),
        forall|j: int| 0 <= j < find(s, c) ==> s[j] != c,
        find(s, c) < s.len() ==> s[find(s, c) as int] == c,
    decreases s.len(),
{
    if s.len() > 0 && s[0] != c {
        lemma_find(s.drop_first(), c);
        assert forall|j: int| 0 <= j < find(s, c) implies s[j] != c by {
            if j > 0 {
                assert(s[j] == s.drop_first()[j - 1]);
            }
        }
    }
}

/// The position of the first `c`, or the length where there is none.
pub fn find_char(s: &[char], c: char) -> (r: usize)
    ensures
        r == find(s@, c),
        r <= s@.len(),
{
    let mut i: usize = 0;
    while i < s.len() && s[i] != c
        invariant
            i <= s.len(),
            forall|j: int| 0 <= j < i ==> s@[j] != c,
        decreases s.len() - i,
    {
        i = i + 1;
    }
    proof {
        lemma_find_is(s@, c, i as int);
    }
    i
}

/// The slice without white space at its two ends.
pub fn trim(s: &[char]) -> (r: &[char])
    ensures
        r@ == trimmed(s@),
{
    let mut from: usize = 0;
    assert(s@.subrange(0, s@.len() as int) =~= s@);
    while from < s.len() && white_space(s[from])
        invariant
            from <= s.len(),
            trimmed(s@) == trimmed(s@.subrange(from as int, s@.len() as int)),
        decreases s.len() - from,
    {
        assert(s@.subrange(from as int, s@.len() as int).drop_first() =~= s@.subrange(
            from + 1,
            s@.len() as int,
        ));
        from = from + 1;
    }
    let mut to: usize = s.len();
    while from < to && white_space(s[to - 1])
        invariant
            from <= to <= s.len(),
            trimmed(s@) == trimmed(s@.subrange(from as int, to as int)),
            from < to ==> !is_white_space(s@[from as int]),
        decreases to,
    {
        assert(s@.subrange(from as int, to as int).drop_last() =~= s@.subrange(
            from as int,
            to - 1,
        ));
        to = to - 1;
    }
    vstd::slice::slice_subrange(s, from, to)
}

/// The slice without the run of `c` at its end.
pub fn trim_trailing(s: &[char], c: char) -> (r: &[char])
    ensures
        r@ == without_trailing(s@, c),
{
    let mut to: usize = s.len();
    assert(s@.take(to as int) =~= s@);
    while to > 0 && s[to - 1] == c
        invariant
            to <= s.len(),
            without_trailing(s@, c) == without_trailing(s@.take(to as int), c),
        decreases to,
    {
        assert(s@.take(to as int).drop_last() =~= s@.take(to - 1));
        to = to - 1;
    }
    vstd::slice::slice_subrange(s, 0, to)
}

/// The characters that are no white space.
pub fn remove_white_space(s: &[char]) -> (r: Vec<char>)
    ensures
        r@ == without_white_space(s@),
{
    let mut r: Vec<char> = Vec::new();
    let mut i: usize = 0;
    let ghost keep = |c: char| !is_white_space(c);
    assert(s@.take(0) =~= Seq::empty());
    assert(r@ =~= s@.take(0).filter(keep)) by {
        reveal(Seq::filter);
    }
    while i < s.len()
        invariant
            i <= s.len(),
            keep == (|c: char| !is_white_space(c)),
            r@ == s@.take(i as int).filter(keep),
        decreases s.len() - i,
    {
        let c: char = s[i];
        assert(s@.take(i + 1).drop_last() =~= s@.take(i as int));
        assert(s@.take(i + 1).filter(keep) == {
            let sub = s@.take(i as int).filter(keep);
            if keep(c) {
                sub.push(c)
            } else {
                sub
            }
        }) by {
            reveal(Seq::filter);
        }
        if !white_space(c) {
            r.push(c);
        }
        i = i + 1;
    }
    assert(s@.take(i as int) =~= s@);
    r
}

/// Whether two slices differ at most in the case of ASCII letters.
pub fn same_ignoring_case(a: &[char], b: &[char]) -> (r: bool)
    ensures
        r == equal_ignoring_case(a@, b@),
{
    if a.len() != b.len() {
        return false;
    }
    let mut i: usize = 0;
    while i < a.len()
        invariant
            i <= a.len(),
            a.len() == b.len(),
            forall|j: int| 0 <= j < i ==> ascii_lower(#[trigger] a@[j]) == ascii_lower(b@[j]),
        decreases a.len() - i,
    {
        if to_ascii_lower(a[i]) != to_ascii_lower(b[i]) {
            return false;
        }
        i = i + 1;
    }
    true
}

/// Whether a slice of characters spells the given string.
pub fn spells(s: &[char], word: &str) -> (r: bool)
    ensures
        r == (s@ == word@),
{
    let w: Vec<char> = chars_of(word);
    if s.len() != w.len() {
        return false;
    }
    let mut i: usize = 0;
    while i < s.len()
        invariant
            i <= s.len(),
            w@ == word@,
            s@.len() == w@.len(),
            forall|j: int| 0 <= j < i ==> s@[j] == w@[j],
        decreases s.len() - i,
    {
        if s[i] != w[i] {
            return false;
        }
        i = i + 1;
    }
    assert(s@ =~= w@);
    true
}

/// Whether `s` begins with `prefix`.
pub fn begins_with(s: &[char], prefix: &str) -> (r: bool)
    ensures
        r == prefix@.is_prefix_of(s@),
{
    let p: Vec<char> = chars_of(prefix);
    if s.len() < p.len() {
        return false;
    }
    let head: &[char] = vstd::slice::slice_subrange(s, 0, p.len());
    spells(head, prefix)
}

/// Whether `s` ends with `suffix`.
pub fn ends_with(s: &[char], suffix: &str) -> (r: bool)
    ensures
        r == suffix@.is_suffix_of(s@),
{
    let p: Vec<char> = chars_of(suffix);
    if s.len() < p.len() {
        return false;
    }
    let tail: &[char] = vstd::slice::slice_subrange(s, s.len() - p.len(), s.len());
    spells(tail, suffix)
}

/// Whether `c` occurs in `s`.
pub fn has_char(s: &[char], c: char) -> (r: bool)
    ensures
        r == s@.contains(c),
{
    let i: usize = find_char(s, c);
    proof {
        lemma_find(s@, c);
        if s@.contains(c) {
            let k = choose|k: int| 0 <= k < s@.len() && s@[k] == c;
            assert(find(s@, c) <= k);
        }
    }
    i < s.len()
}

// ---------------------------------------------------------------------------
// Numbers
// ---------------------------------------------------------------------------

/// Why a string is no number of the wanted range.
#[derive(Debug, Clone, Copy, PartialEq, Eq, Structural)]
pub enum NumberError {
    /// There is no character at all.
    Empty,
    /// A character is no decimal digit.
    InvalidDigit,
    /// The number is above the largest one allowed.
    TooLarge,
}

impl NumberError {
    /// The words in which the fault is reported.
    pub open spec fn words(self) -> Seq<char> {
        match self {
            NumberError::Empty => "cannot parse integer from empty string"@,
            NumberError::InvalidDigit => "invalid digit found in string"@,
            NumberError::TooLarge => "number too large to fit in target type"@,
        }
    }

    /// The words in which the fault is reported.
    pub fn message(&self) -> (r: String)
        ensures
            r@ == self.words(),
    {
        match self {
            NumberError::Empty => "cannot parse integer from empty string".to_owned(),
            NumberError::InvalidDigit => "invalid digit found in string".to_owned(),
            NumberError::TooLarge => "number too large to fit in target type".to_owned(),
        }
    }
}

/// The value of a decimal digit.
pub open spec fn digit_value(c: char) -> nat {
    (c as u32 - '0' as u32) as nat
}

/// The decimal digit of a value below ten.
pub open spec fn digit_char(d: nat) -> char {
    ('0' as u32 + d) as char
}

/// The value of a run of digits. The first character that is no digit, or that takes the
/// value above `max`, decides the fault.
pub open spec fn digits_value(s: Seq<char>, max: nat) -> Result<nat, NumberError>
    decreases s.len(),
{
    if s.len() == 0 {
        Ok(0)
    } else {
        match digits_value(s.drop_last(), max) {
            Err(e) => Err(e),
            Ok(v) => if !('0' <= s.last() <= '9') {
                Err(NumberError::InvalidDigit)
            } else if v * 10 + digit_value(s.last()) > max {
                Err(NumberError::TooLarge)
            } else {
                Ok(v * 10 + digit_value(s.last()))
            },
        }
    }
}

/// An unsigned decimal number up to `max`: digits, after an optional plus sign.
pub open spec fn number(s: Seq<char>, max: nat) -> Result<nat, NumberError> {
    if s.len() == 0 {
        Err(NumberError::Empty)
    } else if s.len() == 1 && (s[0] == '+' || s[0] == '-') {
        Err(NumberError::InvalidDigit)
    } else if s[0] == '+' {
        digits_value(s.drop_first(), max)
    } else {
        digits_value(s, max)
    }
}

/// A number in decimal digits, without leading zeros.
pub open spec fn decimal(n: nat) -> Seq<char>
    decreases n,
{
    if n < 10 {
        seq![digit_char(n)]
    } else {
        decimal(n / 10).push(digit_char(n % 10))
    }
}

/// The hexadecimal digit, in lower case, of a value below sixteen.
pub open spec fn hex_digit(d: nat) -> char {
    if d < 10 {
        digit_char(d)
    } else {
        ('a' as u32 + d - 10) as char
    }
}

/// Bytes in hexadecimal, two digits each.
pub open spec fn hex(bytes: Seq<u8>) -> Seq<char>
    decreases bytes.len(),
{
    if bytes.len() == 0 {
        Seq::empty()
    } else {
        hex(bytes.drop_last()).push(hex_digit((bytes.last() / 16) as nat)).push(
            hex_digit((bytes.last() % 16) as nat),
        )
    }
}

proof fn lemma_digits_fault(s: Seq<char>, max: nat, i: int)
    requires
        0 <= i <= s.len(),
        digits_value(s.take(i), max) is Err,
    ensures
        digits_value(s, max) == digits_value(s.take(i), max),
    decreases s.len(),
{
    if i < s.len() {
        assert(s.drop_last().take(i) =~= s.take(i));
        lemma_digits_fault(s.drop_last(), max, i);
    } else {
        assert(s.take(i) =~= s);
    }
}

fn parse_digits(s: &[char], max: u64) -> (r: Result<u64, NumberError>)
    ensures
        match r {
            Ok(v) => digits_value(s@, max as nat) == Ok::<nat, NumberError>(v as nat),
            Err(e) => digits_value(s@, max as nat) == Err::<nat, NumberError>(e),
        },
{
    let mut v: u64 = 0;
    let mut i: usize = 0;
    while i < s.len()
        invariant
            i <= s.len(),
            digits_value(s@.take(i as int), max as nat) == Ok::<nat, NumberError>(v as nat),
        decreases s.len() - i,
    {
        let c: char = s[i];
        assert(s@.take(i + 1).drop_last() =~= s@.take(i as int));
        if !('0' <= c && c <= '9') {
            proof {
                lemma_digits_fault(s@, max as nat, i + 1);
            }
            return Err(NumberError::InvalidDigit);
        }
        let d: u32 = c as u32 - '0' as u32;
        let next: u128 = v as u128 * 10 + d as u128;
        if next > max as u128 {
            proof {
                lemma_digits_fault(s@, max as nat, i + 1);
            }
            return Err(NumberError::TooLarge);
        }
        v = next as u64;
        i = i + 1;
    }
    assert(s@.take(i as int) =~= s@);
    Ok(v)
}

/// Reads an unsigned decimal number up to `max`.
pub fn parse_number(s: &[char], max: u64) -> (r: Result<u64, NumberError>)
    ensures
        match r {
            Ok(v) => number(s@, max as nat) == Ok::<nat, NumberError>(v as nat),
            Err(e) => number(s@, max as nat) == Err::<nat, NumberError>(e),
        },
{
    if s.len() == 0 {
        return Err(NumberError::Empty);
    }
    if s.len() == 1 && (s[0] == '+' || s[0] == '-') {
        return Err(NumberError::InvalidDigit);
    }
    if s[0] == '+' {
        let rest: &[char] = vstd::slice::slice_subrange(s, 1, s.len());
        assert(rest@ =~= s@.drop_first());
        parse_digits(rest, max)
    } else {
        parse_digits(s, max)
    }
}

/// Writes a number in decimal.
pub fn to_decimal(n: u128) -> (r: String)
    ensures
        r@ == decimal(n as nat),
    decreases n,
{
    let d: u8 = (n % 10) as u8;
    let c: char = (48u8 + d) as char;
    if n < 10 {
        let mut r: String = String::new();
        r.push(c);
        assert(r@ =~= seq![c]);
        r
    } else {
        let mut r: String = to_decimal(n / 10);
        r.push(c);
        r
    }
}

fn to_hex_digit(d: u8) -> (r: char)
    requires
        d < 16,
    ensures
        r == hex_digit(d as nat),
{
    if d < 10 {
        (48u8 + d) as char
    } else {
        (97u8 + (d - 10)) as char
    }
}

/// Writes bytes in hexadecimal, two lower-case digits each.
pub fn to_hex(bytes: &[u8]) -> (r: String)
    ensures
        r@ == hex(bytes@),
{
    let mut r: String = String::new();
    let mut i: usize = 0;
    while i < bytes.len()
        invariant
            i <= bytes.len(),
            r@ == hex(bytes@.take(i as int)),
        decreases bytes.len() - i,
    {
        let b: u8 = bytes[i];
        assert(bytes@.take(i + 1).drop_last() =~= bytes@.take(i as int));
        r.push(to_hex_digit(b / 16));
        r.push(to_hex_digit(b % 16));
        i = i + 1;
    }
    assert(bytes@.take(i as int) =~= bytes@);
    r
}

/// Two digits stand for each byte.
pub proof fn lemma_hex_len(bytes: Seq<u8>)
    ensures
        hex(bytes).len() == 2 * bytes.len(),
    decreases bytes.len(),
{
    if bytes.len() > 0 {
        lemma_hex_len(bytes.drop_last());
    }
}

proof fn lemma_decimal_chars(n: nat)
    ensures
        decimal(n).len() > 0,
        forall|i: int| 0 <= i < decimal(n).len() ==> '0' <= #[trigger] decimal(n)[i] <= '9',
    decreases n,
{
    if n >= 10 {
        lemma_decimal_chars(n / 10);
    }
}

proof fn lemma_decimal_start(n: nat)
    ensures
        n > 0 ==> decimal(n)[0] != '0',
        n < 10 ==> decimal(n).len() == 1,
    decreases n,
{
    if n >= 10 {
        lemma_decimal_start(n / 10);
        lemma_decimal_chars(n / 10);
    }
}

proof fn lemma_decimal_value(n: nat, max: nat)
    requires
        n <= max,
    ensures
        digits_value(decimal(n), max) == Ok::<nat, NumberError>(n),
    decreases n,
{
    if n < 10 {
        assert(decimal(n).drop_last() =~= Seq::empty());
        assert(digits_value(decimal(n).drop_last(), max) == Ok::<nat, NumberError>(0));
    } else {
        lemma_decimal_value(n / 10, max);
        assert(decimal(n).drop_last() =~= decimal(n / 10));
    }
}

/// A number written in decimal is read back as that number, whatever larger or equal limit
/// the reader has, consists of decimal digits only, and starts with zero only where it is zero.
pub proof fn law_decimal_reads_back(n: nat, max: nat)
    requires
        n <= max,
    ensures
        number(decimal(n), max) == Ok::<nat, NumberError>(n),
        decimal(n).len() > 0,
        forall|i: int| 0 <= i < decimal(n).len() ==> '0' <= #[trigger] decimal(n)[i] <= '9',
        decimal(n).len() > 1 ==> decimal(n)[0] != '0',
{
    lemma_decimal_chars(n);
    lemma_decimal_start(n);
    lemma_decimal_value(n, max);
    assert('0' <= decimal(n)[0] <= '9');
}

// ---------------------------------------------------------------------------
// UTF-8
// ---------------------------------------------------------------------------

/// The words in which `std::str::from_utf8` reports bytes that are no UTF-8.
pub uninterp spec fn utf8_fault(bytes: Seq<u8>) -> Seq<char>;

/// The text that `String::from_utf8_lossy` makes of bytes.
pub uninterp spec fn lossy_text(bytes: Seq<u8>) -> Seq<char>;

/// Calls `std::str::from_utf8`. It succeeds on valid UTF-8 and on nothing else, and gives the
/// string made of these very bytes. A fault comes as its printed words, which depend on the
/// bytes alone.
#[verifier::external_body]
pub(crate) fn from_utf8(bytes: &[u8]) -> (r: Result<&str, String>)
    ensures
        r is Ok <==> valid_utf8(bytes@),
        r matches Ok(s) ==> s.spec_bytes() == bytes@,
        r matches Err(words) ==> words@ == utf8_fault(bytes@),
{
    std::str::from_utf8(bytes).map_err(|e| e.to_string())
}

/// Calls `String::from_utf8_lossy`. Valid UTF-8 is kept as it is; what stands for other bytes
/// is a function of the bytes.
#[verifier::external_body]
pub(crate) fn from_utf8_lossy(bytes: &[u8]) -> (r: String)
    ensures
        r@ == lossy_text(bytes@),
        valid_utf8(bytes@) ==> encode_utf8(r@) == bytes@,
{
    String::from_utf8_lossy(bytes).into_owned()
}

/// The encoding of two texts one after the other is their encodings one after the other.
pub proof fn lemma_encode_concat(a: Seq<char>, b: Seq<char>)
    ensures
        encode_utf8(a + b) == encode_utf8(a) + encode_utf8(b),
    decreases a.len(),
{
    if a.len() == 0 {
        assert(a + b =~= b);
        assert(encode_utf8(a) + encode_utf8(b) =~= encode_utf8(b));
    } else {
        lemma_encode_concat(a.drop_first(), b);
        assert((a + b).drop_first() =~= a.drop_first() + b);
        assert(encode_utf8(a + b) =~= encode_utf8(a) + encode_utf8(b));
    }
}

proof fn lemma_scalar_without(c: u32, b: u8)
    requires
        is_scalar(c),
        b < 0x80,
        c != b,
    ensures
        forall|i: int| 0 <= i < encode_scalar(c).len() ==> encode_scalar(c)[i] != b,
{
    assert(c <= 0x7f ==> (c & 0x7F) as u8 == c) by (bit_vector);
    assert((0xC0u8 | ((c >> 6) & 0x1F) as u8) >= 0x80) by (bit_vector);
    assert((0xE0u8 | ((c >> 12) & 0x0F) as u8) >= 0x80) by (bit_vector);
    assert((0xF0u8 | ((c >> 18) & 0x7) as u8) >= 0x80) by (bit_vector);
    assert((0x80u8 | (c & 0x3F) as u8) >= 0x80) by (bit_vector);
    assert((0x80u8 | ((c >> 6) & 0x3F) as u8) >= 0x80) by (bit_vector);
    assert((0x80u8 | ((c >> 12) & 0x3F) as u8) >= 0x80) by (bit_vector);
}

/// The encoding of a text without an ASCII character does not hold the byte of that character.
pub proof fn lemma_encode_without(s: Seq<char>, b: char)
    requires
        b <= '\u{7f}',
        forall|i: int| 0 <= i < s.len() ==> s[i] != b,
    ensures
        forall|i: int| 0 <= i < encode_utf8(s).len() ==> encode_utf8(s)[i] != b as u8,
    decreases s.len(),
{
    if s.len() > 0 {
        let c = s[0];
        char_is_scalar(c);
        assert(s[0] != b);
        char_u32_cast(c, c as u32);
        char_u32_cast(b, b as u32);
        assert(c as u32 != b as u32);
        lemma_scalar_without(c as u32, b as u8);
        assert forall|i: int| 0 <= i < s.drop_first().len() implies s.drop_first()[i] != b by {
            assert(s.drop_first()[i] == s[i + 1]);
        }
        lemma_encode_without(s.drop_first(), b);
        let first = encode_scalar(c as u32);
        assert forall|i: int| 0 <= i < encode_utf8(s).len() implies encode_utf8(s)[i] != b as u8 by {
            if i < first.len() {
                assert(encode_utf8(s)[i] == first[i]);
            } else {
                assert(encode_utf8(s)[i] == encode_utf8(s.drop_first())[i - first.len()]);
            }
        }
    }
}

// ---------------------------------------------------------------------------
// Laws
// ---------------------------------------------------------------------------

/// Parts, one after the other, with the same text between each two.
pub open spec fn glued(parts: Seq<Seq<char>>, between: Seq<char>) -> Seq<char>
    decreases parts.len(),
{
    if parts.len() == 0 {
        Seq::empty()
    } else if parts.len() == 1 {
        parts[0]
    } else {
        glued(parts.drop_last(), between) + between + parts.last()
    }
}

proof fn lemma_glued_last(parts: Seq<Seq<char>>, between: Seq<char>, end: Seq<char>)
    requires
        parts.len() > 0,
    ensures
        glued(parts.drop_last().push(parts.last() + end), between) == glued(parts, between) + end,
{
    let changed = parts.drop_last().push(parts.last() + end);
    assert(changed.drop_last() =~= parts.drop_last());
    if parts.len() > 1 {
        assert(glued(changed, between) =~= glued(parts, between) + end);
    }
}

proof fn lemma_glued_push(parts: Seq<Seq<char>>, between: Seq<char>, part: Seq<char>)
    requires
        parts.len() > 0,
    ensures
        glued(parts.push(part), between) == glued(parts, between) + between + part,
{
    assert(parts.push(part).drop_last() =~= parts);
}

/// The pieces of a text hold no separator, and with separators between them they are the text.
pub proof fn law_pieces_are_what_is_between(s: Seq<char>, sep: char)
    ensures
        pieces(s, sep).len() > 0,
        forall|i: int| 0 <= i < pieces(s, sep).len() ==> !(#[trigger] pieces(s, sep)[i]).contains(
            sep,
        ),
        glued(pieces(s, sep), seq![sep]) == s,
    decreases s.len(),
{
    if s.len() > 0 {
        let before = pieces(s.drop_last(), sep);
        law_pieces_are_what_is_between(s.drop_last(), sep);
        let none: Seq<char> = Seq::empty();
        if s.last() == sep {
            lemma_glued_push(before, seq![sep], none);
            assert(s.drop_last() + seq![sep] + none =~= s);
        } else {
            lemma_glued_last(before, seq![sep], seq![s.last()]);
            assert(before.last() + seq![s.last()] =~= before.last().push(s.last()));
            assert(s.drop_last() + seq![s.last()] =~= s);
            assert forall|k: int| 0 <= k < before.last().push(s.last()).len() implies before.last().push(
                s.last(),
            )[k] != sep by {
                if k < before.last().len() {
                    assert(before[before.len() - 1].contains(before.last()[k]));
                }
            }
        }
    }
}

/// The lines of a text hold no line end, and with line ends between them they are the text.
pub proof fn law_lines_are_what_is_between(s: Seq<char>)
    ensures
        lines(s).len() > 0,
        forall|i: int, k: int|
            0 <= i < lines(s).len() && 0 <= k < lines(s)[i].len() - 1 ==> !(
            #[trigger] lines(s)[i][k] == '\r' && lines(s)[i][k + 1] == '\n'),
        glued(lines(s), seq!['\r', '\n']) == s,
    decreases s.len(),
{
    let end = seq!['\r', '\n'];
    if s.len() > 0 {
        let before = lines(s.drop_last());
        let current = before.last();
        law_lines_are_what_is_between(s.drop_last());
        let none: Seq<char> = Seq::empty();
        if s.last() == '\n' && current.len() > 0 && current.last() == '\r' {
            let kept = before.drop_last().push(current.drop_last());
            assert(kept.drop_last().push(kept.last() + seq!['\r']) =~= before) by {
                assert(current.drop_last() + seq!['\r'] =~= current);
            }
            lemma_glued_last(kept, end, seq!['\r']);
            lemma_glued_push(kept, end, none);
            assert(glued(kept, end) + seq!['\r'] == s.drop_last());
            assert(glued(kept, end) + end + none =~= s.drop_last().push('\n'));
            assert(s.drop_last().push('\n') =~= s);
            let after = lines(s);
            assert forall|i: int, k: int|
                0 <= i < after.len() && 0 <= k < after[i].len() - 1 implies !(
            #[trigger] after[i][k] == '\r' && after[i][k + 1] == '\n') by {
                if i < before.len() {
                    assert(after[i][k] == before[i][k]);
                    assert(after[i][k + 1] == before[i][k + 1]);
                }
            }
        } else {
            lemma_glued_last(before, end, seq![s.last()]);
            assert(current + seq![s.last()] =~= current.push(s.last()));
            assert(s.drop_last() + seq![s.last()] =~= s);
            let after = lines(s);
            assert forall|i: int, k: int|
                0 <= i < after.len() && 0 <= k < after[i].len() - 1 implies !(
            #[trigger] after[i][k] == '\r' && after[i][k + 1] == '\n') by {
                assert(after[i][k] == before[i][k]);
                if k + 1 < before[i].len() {
                    assert(after[i][k + 1] == before[i][k + 1]);
                }
            }
        }
    }
}

/// A text without white space is one word.
pub proof fn law_one_word(s: Seq<char>)
    requires
        s.len() > 0,
        forall|i: int| 0 <= i < s.len() ==> !is_white_space(#[trigger] s[i]),
    ensures
        words(s) == seq![s],
    decreases s.len(),
{
    assert(!is_white_space(s[s.len() - 1]));
    if s.len() == 1 {
        assert(words(s.drop_last()) =~= Seq::empty());
        assert(seq![s.last()] =~= s);
        assert(words(s) =~= seq![s]);
    } else {
        assert(!is_white_space(s[s.len() - 2]));
        law_one_word(s.drop_last());
        assert(s.drop_last().push(s.last()) =~= s);
        assert(seq![s.drop_last()].drop_last().push(s) =~= seq![s]);
    }
}

proof fn lemma_words_nonempty(s: Seq<char>)
    requires
        s.len() > 0,
        !is_white_space(s.last()),
    ensures
        words(s).len() > 0,
{
}

/// The words of a text are those before a white-space character and those after it; nothing
/// has no words.
pub proof fn law_white_space_parts_words(a: Seq<char>, c: char, b: Seq<char>)
    requires
        is_white_space(c),
    ensures
        words(a.push(c) + b) == words(a) + words(b),
        words(Seq::empty()) == Seq::<Seq<char>>::empty(),
    decreases b.len(),
{
    let t = a.push(c) + b;
    if b.len() == 0 {
        assert(t =~= a.push(c));
        assert(t.drop_last() =~= a);
        assert(words(a) + words(b) =~= words(a));
    } else {
        law_white_space_parts_words(a, c, b.drop_last());
        assert(t.drop_last() =~= a.push(c) + b.drop_last());
        let before = words(b.drop_last());
        if is_white_space(b.last()) {
        } else if b.len() == 1 {
            assert(t[t.len() - 2] == c);
            assert(before =~= Seq::empty());
            assert(words(t) =~= words(a) + words(b));
        } else if is_white_space(b[b.len() - 2]) {
            assert(t[t.len() - 2] == b[b.len() - 2]);
            assert(words(t) =~= words(a) + words(b));
        } else {
            assert(t[t.len() - 2] == b[b.len() - 2]);
            lemma_words_nonempty(b.drop_last());
            assert((words(a) + before).last() == before.last());
            assert((words(a) + before).drop_last() =~= words(a) + before.drop_last());
            assert(words(t) =~= words(a) + words(b));
        }
    }
}

/// Trimming takes off white space at the two ends, all of it and nothing else.
pub proof fn law_trimming(s: Seq<char>) -> (from: int)
    ensures
        0 <= from,
        from + trimmed(s).len() <= s.len(),
        trimmed(s) == s.subrange(from, from + trimmed(s).len()),
        forall|i: int| 0 <= i < from ==> is_white_space(#[trigger] s[i]),
        forall|i: int| from + trimmed(s).len() <= i < s.len() ==> is_white_space(#[trigger] s[i]),
        trimmed(s).len() > 0 ==> !is_white_space(trimmed(s)[0]) && !is_white_space(
            trimmed(s).last(),
        ),
    decreases s.len(),
{
    if s.len() > 0 && is_white_space(s[0]) {
        let rest = s.drop_first();
        let k = law_trimming(rest);
        assert(trimmed(s) =~= s.subrange(k + 1, k + 1 + trimmed(s).len()));
        assert forall|i: int| 0 <= i < k + 1 implies is_white_space(#[trigger] s[i]) by {
            if i > 0 {
                assert(s[i] == rest[i - 1]);
            }
        }
        assert forall|i: int| k + 1 + trimmed(s).len() <= i < s.len() implies is_white_space(
            #[trigger] s[i],
        ) by {
            assert(s[i] == rest[i - 1]);
        }
        k + 1
    } else if s.len() > 0 && is_white_space(s.last()) {
        let rest = s.drop_last();
        let k = law_trimming(rest);
        assert(trimmed(s) =~= s.subrange(k, k + trimmed(s).len()));
        assert forall|i: int| 0 <= i < k implies is_white_space(#[trigger] s[i]) by {
            assert(s[i] == rest[i]);
        }
        assert forall|i: int| k + trimmed(s).len() <= i < s.len() implies is_white_space(
            #[trigger] s[i],
        ) by {
            if i < rest.len() {
                assert(s[i] == rest[i]);
            }
        }
        k
    } else {
        assert(s.subrange(0, s.len() as int) =~= s);
        0
    }
}

/// White space around a text that has none at its ends is what trimming takes off.
pub proof fn law_trimmed_is_what_is_within(before: Seq<char>, s: Seq<char>, after: Seq<char>)
    requires
        forall|i: int| 0 <= i < before.len() ==> is_white_space(#[trigger] before[i]),
        forall|i: int| 0 <= i < after.len() ==> is_white_space(#[trigger] after[i]),
        s.len() > 0 ==> !is_white_space(s[0]) && !is_white_space(s.last()),
    ensures
        trimmed(before + s + after) == s,
    decreases before.len() + after.len(),
{
    let all = before + s + after;
    if before.len() > 0 {
        assert(is_white_space(before[0]));
        assert(all[0] == before[0]);
        assert(all.drop_first() =~= before.drop_first() + s + after);
        assert forall|i: int| 0 <= i < before.drop_first().len() implies is_white_space(
            #[trigger] before.drop_first()[i],
        ) by {
            assert(before.drop_first()[i] == before[i + 1]);
        }
        law_trimmed_is_what_is_within(before.drop_first(), s, after);
    } else if after.len() > 0 {
        assert(is_white_space(after[after.len() - 1]));
        assert(all.last() == after.last());
        assert(all.drop_last() =~= before + s + after.drop_last());
        assert forall|i: int| 0 <= i < after.drop_last().len() implies is_white_space(
            #[trigger] after.drop_last()[i],
        ) by {
            assert(after.drop_last()[i] == after[i]);
        }
        law_trimmed_is_what_is_within(before, s, after.drop_last());
        if s.len() > 0 {
            assert(all[0] == s[0]);
        } else {
            assert(is_white_space(after[0]));
            assert(all =~= after);
            lemma_trimmed_to_nothing(after);
            assert(s =~= Seq::empty());
        }
    } else {
        assert(all =~= s);
    }
}

proof fn lemma_trimmed_to_nothing(s: Seq<char>)
    requires
        forall|i: int| 0 <= i < s.len() ==> is_white_space(#[trigger] s[i]),
    ensures
        trimmed(s) == Seq::<char>::empty(),
    decreases s.len(),
{
    if s.len() > 0 {
        assert(is_white_space(s[0]));
        assert forall|i: int| 0 <= i < s.drop_first().len() implies is_white_space(
            #[trigger] s.drop_first()[i],
        ) by {
            assert(s.drop_first()[i] == s[i + 1]);
        }
        lemma_trimmed_to_nothing(s.drop_first());
    } else {
        assert(s =~= Seq::empty());
    }
}

/// What is left of a text without the run of a character at its end: all of it up to a place
/// after which only that character stands, and before which another one does.
pub proof fn law_only_the_trailing_run_goes(s: Seq<char>, c: char)
    ensures
        without_trailing(s, c).len() <= s.len(),
        without_trailing(s, c) == s.take(without_trailing(s, c).len() as int),
        forall|i: int| without_trailing(s, c).len() <= i < s.len() ==> #[trigger] s[i] == c,
        without_trailing(s, c).len() > 0 ==> without_trailing(s, c).last() != c,
    decreases s.len(),
{
    if s.len() > 0 && s.last() == c {
        law_only_the_trailing_run_goes(s.drop_last(), c);
        assert(s.drop_last().take(without_trailing(s, c).len() as int) =~= s.take(
            without_trailing(s, c).len() as int,
        ));
        assert forall|i: int| without_trailing(s, c).len() <= i < s.len() implies #[trigger] s[i]
            == c by {
            if i < s.len() - 1 {
                assert(s[i] == s.drop_last()[i]);
            }
        }
    } else {
        assert(s.take(s.len() as int) =~= s);
    }
}

/// White space is left out of a text and every other character is kept in its place.
pub proof fn law_white_space_is_left_out(s: Seq<char>, c: char)
    ensures
        without_white_space(Seq::empty()) == Seq::<char>::empty(),
        is_white_space(c) ==> without_white_space(s.push(c)) == without_white_space(s),
        !is_white_space(c) ==> without_white_space(s.push(c)) == without_white_space(s).push(c),
{
    reveal(Seq::filter);
    assert(s.push(c).drop_last() =~= s);
    assert(Seq::<char>::empty().filter(|x: char| !is_white_space(x)) =~= Seq::<char>::empty());
}

/// Two texts are equal up to case where each two characters are equal, or are one letter of
/// ASCII in its two cases.
pub proof fn law_case_is_that_of_ascii_letters(a: Seq<char>, b: Seq<char>)
    ensures
        equal_ignoring_case(a, b) <==> (a.len() == b.len() && forall|i: int|
            0 <= i < a.len() ==> {
                ||| #[trigger] a[i] == b[i]
                ||| 'A' <= a[i] <= 'Z' && b[i] as u32 == a[i] as u32 + 32
                ||| 'A' <= b[i] <= 'Z' && a[i] as u32 == b[i] as u32 + 32
            }),
{
    if a.len() == b.len() {
        assert forall|i: int| 0 <= i < a.len() implies (ascii_lower(#[trigger] a[i]) == ascii_lower(
            b[i],
        ) <==> (a[i] == b[i] || ('A' <= a[i] <= 'Z' && b[i] as u32 == a[i] as u32 + 32) || ('A'
            <= b[i] <= 'Z' && a[i] as u32 == b[i] as u32 + 32))) by {
            lemma_lower(a[i], b[i]);
        }
    }
}

proof fn lemma_lower(x: char, y: char)
    ensures
        ascii_lower(x) == ascii_lower(y) <==> (x == y || ('A' <= x <= 'Z' && y as u32 == x as u32
            + 32) || ('A' <= y <= 'Z' && x as u32 == y as u32 + 32)),
{
    char_u32_cast(x, x as u32);
    char_u32_cast(y, y as u32);
}

/// A number is read digit by digit: a digit more makes it ten times as large and adds the digit,
/// up to the limit. Another character is a fault, and a fault stays whatever follows.
pub proof fn law_number_is_read_digit_by_digit(s: Seq<char>, c: char, max: nat)
    ensures
        number(Seq::empty(), max) == Err::<nat, NumberError>(NumberError::Empty),
        !('0' <= c <= '9') ==> number(seq![c], max) == Err::<nat, NumberError>(
            NumberError::InvalidDigit,
        ),
        '0' <= c <= '9' ==> number(seq![c], max) == (if c as u32 - '0' as u32 <= max {
            Ok::<nat, NumberError>((c as u32 - '0' as u32) as nat)
        } else {
            Err(NumberError::TooLarge)
        }),
        number(s, max) matches Ok(v) ==> number(s.push(c), max) == (if !('0' <= c <= '9') {
            Err::<nat, NumberError>(NumberError::InvalidDigit)
        } else if v * 10 + (c as u32 - '0' as u32) > max {
            Err(NumberError::TooLarge)
        } else {
            Ok((v * 10 + (c as u32 - '0' as u32)) as nat)
        }),
        number(s, max) is Err && s.len() > 0 && s != seq!['+'] ==> number(s.push(c), max)
            == number(s, max),
        s.len() > 0 && s[0] != '+' ==> number(seq!['+'] + s, max) == number(s, max),
{
    let one = seq![c];
    assert(one.drop_last() =~= Seq::empty());
    assert(digits_value(one.drop_last(), max) == Ok::<nat, NumberError>(0));
    assert(digits_value(Seq::empty(), max) == Ok::<nat, NumberError>(0));
    let t = s.push(c);
    assert(t.drop_last() =~= s);
    if s.len() > 0 {
        if s[0] == '+' {
            assert(t.drop_first() =~= s.drop_first().push(c));
            assert(s.drop_first().push(c).drop_last() =~= s.drop_first());
            if s.len() == 1 {
                assert(s =~= seq!['+']);
            }
        } else if s.len() == 1 && s[0] == '-' {
            assert(s.drop_last() =~= Seq::empty());
            assert(digits_value(s, max) == Err::<nat, NumberError>(NumberError::InvalidDigit));
        }
        let plus = seq!['+'] + s;
        assert(plus.drop_first() =~= s);
        if s.len() == 1 {
            assert(s.drop_last() =~= Seq::empty());
        }
    }
}

/// The digits of a byte in hexadecimal stand for it: the first for its sixteens, the second for
/// what is left.
pub proof fn law_hex_digits(bytes: Seq<u8>)
    ensures
        hex(bytes).len() == 2 * bytes.len(),
        forall|i: int|
            0 <= i < bytes.len() ==> {
                &&& hex(bytes)[2 * i] == "0123456789abcdef"@[#[trigger] bytes[i] as int / 16]
                &&& hex(bytes)[2 * i + 1] == "0123456789abcdef"@[bytes[i] as int % 16]
            },
    decreases bytes.len(),
{
    reveal_strlit("0123456789abcdef");
    if bytes.len() > 0 {
        law_hex_digits(bytes.drop_last());
        lemma_hex_digit((bytes.last() / 16) as nat);
        lemma_hex_digit((bytes.last() % 16) as nat);
        let before = hex(bytes.drop_last());
        assert forall|i: int| 0 <= i < bytes.len() implies {
            &&& hex(bytes)[2 * i] == "0123456789abcdef"@[#[trigger] bytes[i] as int / 16]
            &&& hex(bytes)[2 * i + 1] == "0123456789abcdef"@[bytes[i] as int % 16]
        } by {
            if i < bytes.len() - 1 {
                assert(bytes[i] == bytes.drop_last()[i]);
                assert(hex(bytes)[2 * i] == before[2 * i]);
                assert(hex(bytes)[2 * i + 1] == before[2 * i + 1]);
            }
        }
    }
}

proof fn lemma_hex_digit(d: nat)
    requires
        d < 16,
    ensures
        hex_digit(d) == "0123456789abcdef"@[d as int],
{
    reveal_strlit("0123456789abcdef");
    assert(d == 0 || d == 1 || d == 2 || d == 3 || d == 4 || d == 5 || d == 6 || d == 7 || d == 8
        || d == 9 || d == 10 || d == 11 || d == 12 || d == 13 || d == 14 || d == 15);
}

/// The white space of ASCII, and its letters and digits, by their codes.
pub proof fn law_ascii_classes(c: char)
    ensures
        is_ascii_space(c) <==> (c as u32 == 9 || c as u32 == 10 || c as u32 == 12 || c as u32 == 13
            || c as u32 == 32),
        is_ascii_alphanumeric(c) <==> (48 <= c as u32 <= 57 || 65 <= c as u32 <= 90 || 97 <= c as u32
            <= 122),
        is_ascii_space(c) ==> is_white_space(c),
{
    char_u32_cast(c, c as u32);
}

} // verus!
