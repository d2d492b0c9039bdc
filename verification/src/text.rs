//! Text helpers: trimming, case folding and decimal parsing, with their
//! mathematical meaning over sequences of characters.

use vstd::prelude::*;

verus! {

/// Whether `c` is white space: one of the code points that carry the Unicode
/// property `White_Space`.
pub open spec fn is_white_space(c: char) -> bool {
    let n = c as u32;
    ||| 0x09 <= n <= 0x0D
    ||| n == 0x20
    ||| n == 0x85
    ||| n == 0xA0
    ||| n == 0x1680
    ||| 0x2000 <= n <= 0x200A
    ||| n == 0x2028
    ||| n == 0x2029
    ||| n == 0x202F
    ||| n == 0x205F
    ||| n == 0x3000
}

/// `s` without its leading white space.
pub open spec fn trim_start(s: Seq<char>) -> Seq<char>
    decreases s.len(),
{
    if s.len() > 0 && is_white_space(s[0]) {
        trim_start(s.skip(1))
    } else {
        s
    }
}

/// `s` without its trailing white space.
pub open spec fn trim_end(s: Seq<char>) -> Seq<char>
    decreases s.len(),
{
    if s.len() > 0 && is_white_space(s.last()) {
        trim_end(s.drop_last())
    } else {
        s
    }
}

/// `s` without its leading and trailing white space.
pub open spec fn trimmed(s: Seq<char>) -> Seq<char> {
    trim_end(trim_start(s))
}

/// Whether `c` is one of the ten decimal digits.
pub open spec fn is_digit(c: char) -> bool {
    '0' <= c <= '9'
}

/// Whether `s` holds decimal digits only.
pub open spec fn all_digits(s: Seq<char>) -> bool {
    forall|i: int| 0 <= i < s.len() ==> is_digit(#[trigger] s[i])
}

/// The number that the decimal digits of `s` write.
pub open spec fn digits_value(s: Seq<char>) -> nat
    decreases s.len(),
{
    if s.len() == 0 {
        0
    } else {
        digits_value(s.drop_last()) * 10 + ((s.last() as u32 - '0' as u32) as nat)
    }
}

/// The unsigned number up to `max` that `s` writes: an optional `+`, then one
/// or more decimal digits, and nothing else; `None` where `s` has another
/// shape or the number is above `max`.
pub open spec fn parsed_unsigned(s: Seq<char>, max: nat) -> Option<nat> {
    let digits = if s.len() > 0 && s[0] == '+' {
        s.skip(1)
    } else {
        s
    };
    if digits.len() > 0 && all_digits(digits) && digits_value(digits) <= max {
        Some(digits_value(digits))
    } else {
        None
    }
}

/// The `usize` that `s` writes in decimal.
pub open spec fn parsed_usize(s: Seq<char>) -> Option<usize> {
    match parsed_unsigned(s, usize::MAX as nat) {
        Some(value) => Some(value as usize),
        None => None,
    }
}

/// The `u64` that `s` writes in decimal.
pub open spec fn parsed_u64(s: Seq<char>) -> Option<u64> {
    match parsed_unsigned(s, u64::MAX as nat) {
        Some(value) => Some(value as u64),
        None => None,
    }
}

/// The signed number that `s` writes: an optional `+` or `-`, then one or
/// more decimal digits, and nothing else; `None` where `s` has another shape or
/// the number does not fit.
pub open spec fn parsed_i32(s: Seq<char>) -> Option<i32> {
    let negative = s.len() > 0 && s[0] == '-';
    let digits = if s.len() > 0 && (s[0] == '+' || s[0] == '-') {
        s.skip(1)
    } else {
        s
    };
    let value = if negative {
        -(digits_value(digits) as int)
    } else {
        digits_value(digits) as int
    };
    if digits.len() > 0 && all_digits(digits) && i32::MIN <= value <= i32::MAX {
        Some(value as i32)
    } else {
        None
    }
}

/// The lowercase form that Unicode gives to `s`.
pub uninterp spec fn lowercase(s: Seq<char>) -> Seq<char>;

/// `str::trim`: the slice of `s` between its leading and its trailing white
/// space, which is every character with the Unicode property `White_Space`.
#[verifier::external_body]
pub(crate) fn trim(s: &str) -> (r: &str)
    ensures
        r@ == trimmed(s@),
{
    s.trim()
}

/// `str::to_lowercase`: a new string, the lowercase form of `s`.
#[verifier::external_body]
pub(crate) fn to_lowercase(s: &str) -> (r: String)
    ensures
        r@ == lowercase(s@),
{
    s.to_lowercase()
}

/// `str::parse` for `usize`: the number that `s` writes in decimal, where it
/// is an optional `+` and digits and fits.
#[verifier::external_body]
pub(crate) fn parse_usize(s: &str) -> (r: Option<usize>)
    ensures
        r == parsed_usize(s@),
{
    match s.parse::<usize>() {
        Ok(value) => Some(value),
        Err(_) => None,
    }
}

/// `str::parse` for `u64`: the number that `s` writes in decimal, where it is
/// an optional `+` and digits and fits.
#[verifier::external_body]
pub(crate) fn parse_u64(s: &str) -> (r: Option<u64>)
    ensures
        r == parsed_u64(s@),
{
    match s.parse::<u64>() {
        Ok(value) => Some(value),
        Err(_) => None,
    }
}

/// `str::parse` for `i32`: the number that `s` writes in decimal, where it is
/// an optional sign and digits and fits.
#[verifier::external_body]
pub(crate) fn parse_i32(s: &str) -> (r: Option<i32>)
    ensures
        r == parsed_i32(s@),
{
    match s.parse::<i32>() {
        Ok(value) => Some(value),
        Err(_) => None,
    }
}

/// `String::push`: appends `c` to `s`.
#[verifier::external_body]
pub(crate) fn push_char(s: &mut String, c: char)
    ensures
        final(s)@ == old(s)@.push(c),
{
    s.push(c)
}

/// The characters of `s`, in order.
pub fn chars_of(s: &str) -> (r: Vec<char>)
    ensures
        r@ == s@,
{
    let mut chars: Vec<char> = Vec::new();
    for c in it: s.chars()
        invariant
            it.seq() == s@,
            chars@ == s@.take(it.index() as int),
    {
        chars.push(c);
        assert(s@.take(it.index() + 1) =~= s@.take(it.index() as int).push(c));
    }
    assert(s@.take(s@.len() as int) =~= s@);
    chars
}

/// The string of the characters of `chars` from `from` up to `to`.
pub fn string_of(chars: &Vec<char>, from: usize, to: usize) -> (r: String)
    requires
        from <= to <= chars@.len(),
    ensures
        r@ == chars@.subrange(from as int, to as int),
{
    let mut text: String = String::new();
    let mut i: usize = from;
    while i < to
        invariant
            from <= i <= to <= chars@.len(),
            text@ == chars@.subrange(from as int, i as int),
        decreases to - i,
    {
        push_char(&mut text, chars[i]);
        assert(chars@.subrange(from as int, i + 1) =~= chars@.subrange(from as int, i as int).push(
            chars@[i as int],
        ));
        i = i + 1;
    }
    text
}

/// Whether `pattern` stands in `text` at `index`.
pub open spec fn occurs_at(text: Seq<char>, pattern: Seq<char>, index: int) -> bool {
    &&& 0 <= index
    &&& index + pattern.len() <= text.len()
    &&& text.subrange(index, index + pattern.len()) == pattern
}

/// Whether `index` is the first place at or after `from` at which `pattern`
/// stands in `text`.
pub open spec fn first_occurrence(
    text: Seq<char>,
    pattern: Seq<char>,
    from: int,
    index: int,
) -> bool {
    &&& from <= index
    &&& occurs_at(text, pattern, index)
    &&& forall|j: int| from <= j < index ==> !occurs_at(text, pattern, j)
}

/// At most one place is the first at which a pattern stands.
pub proof fn lemma_first_occurrence_unique(
    text: Seq<char>,
    pattern: Seq<char>,
    from: int,
    i: int,
    j: int,
)
    requires
        first_occurrence(text, pattern, from, i),
        first_occurrence(text, pattern, from, j),
    ensures
        i == j,
{
}

/// Whether `pattern` stands in `text` at `index`.
fn matches_at(text: &Vec<char>, pattern: &Vec<char>, index: usize) -> (r: bool)
    requires
        index + pattern@.len() <= text@.len(),
    ensures
        r == occurs_at(text@, pattern@, index as int),
{
    let mut k: usize = 0;
    assert(text.len() == text@.len());
    while k < pattern.len()
        invariant
            k <= pattern@.len(),
            index + pattern@.len() <= text@.len() <= usize::MAX,
            forall|j: int| 0 <= j < k ==> text@[index + j] == pattern@[j],
        decreases pattern@.len() - k,
    {
        if text[index + k] != pattern[k] {
            assert(text@.subrange(index as int, index + pattern@.len())[k as int] != pattern@[k as int]);
            return false;
        }
        k = k + 1;
    }
    assert(text@.subrange(index as int, index + pattern@.len()) =~= pattern@);
    true
}

/// The first place at or after `from` at which `pattern` stands in `text`.
pub fn find(text: &Vec<char>, pattern: &Vec<char>, from: usize) -> (r: Option<usize>)
    ensures
        match r {
            Some(index) => first_occurrence(text@, pattern@, from as int, index as int),
            None => forall|j: int| from <= j ==> !occurs_at(text@, pattern@, j),
        },
{
    if pattern.len() > text.len() {
        return None;
    }
    if pattern.len() == 0 {
        if from <= text.len() {
            assert(text@.subrange(from as int, from as int) =~= pattern@);
            return Some(from);
        }
        return None;
    }
    let last: usize = text.len() - pattern.len();
    let mut index: usize = from;
    while index <= last
        invariant
            from <= index,
            last == text@.len() - pattern@.len(),
            last < usize::MAX,
            forall|j: int| from <= j < index ==> !occurs_at(text@, pattern@, j),
        decreases last + 1 - index,
    {
        if matches_at(text, pattern, index) {
            return Some(index);
        }
        index = index + 1;
    }
    None
}

/// Whether `c` is ASCII white space: a space, a tab, a line feed, a form feed
/// or a carriage return.
pub open spec fn is_ascii_space(c: char) -> bool {
    c == ' ' || c == '\t' || c == '\n' || c == '\x0C' || c == '\r'
}

/// Whether `c` is ASCII white space.
pub fn ascii_space(c: char) -> (r: bool)
    ensures
        r == is_ascii_space(c),
{
    c == ' ' || c == '\t' || c == '\n' || c == '\x0C' || c == '\r'
}

/// Where the word that starts at `index` ends: at the next ASCII white
/// space, or at the end of `text`.
pub open spec fn word_end(text: Seq<char>, index: int) -> int
    decreases text.len() - index,
{
    if 0 <= index < text.len() && !is_ascii_space(text[index]) {
        word_end(text, index + 1)
    } else {
        index
    }
}

/// Where the word that starts at `index` ends.
pub fn find_word_end(text: &Vec<char>, index: usize, limit: usize) -> (r: usize)
    requires
        index <= limit <= text@.len(),
    ensures
        index <= r <= limit,
        r == word_end(text@.take(limit as int), index as int),
{
    let mut end: usize = index;
    while end < limit && !ascii_space(text[end])
        invariant
            index <= end <= limit <= text@.len(),
            word_end(text@.take(limit as int), index as int) == word_end(
                text@.take(limit as int),
                end as int,
            ),
        decreases limit - end,
    {
        end = end + 1;
    }
    end
}

} // verus!
