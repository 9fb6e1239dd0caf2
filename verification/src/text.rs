//! Text as sequences of characters: conversions, decimal numbers, white
//! space, prefixes.
use vstd::prelude::*;

verus! {

/// `String::push`: appends `c` to the end of `text`.
#[verifier::external_body]
fn push_char(text: &mut String, c: char)
    ensures
        final(text)@ == old(text)@.push(c),
{
    text.push(c);
}

/// Whether `c` is white space: one of the characters that have the Unicode
/// property White_Space, which are the tab, the line and page feeds, the
/// carriage return and the space, the next-line mark, the no-break space,
/// the Ogham space mark, the spaces of fixed width, the line and paragraph
/// separators, the narrow no-break space, the medium mathematical space and
/// the ideographic space.
pub open spec fn is_white_space(c: char) -> bool {
    let code = c as u32;
    ||| 0x9 <= code <= 0xD
    ||| code == 0x20
    ||| code == 0x85
    ||| code == 0xA0
    ||| code == 0x1680
    ||| 0x2000 <= code <= 0x200A
    ||| code == 0x2028
    ||| code == 0x2029
    ||| code == 0x202F
    ||| code == 0x205F
    ||| code == 0x3000
}

/// Whether `c` is white space.
pub fn white_space(c: char) -> (white: bool)
    ensures
        white == is_white_space(c),
{
    let code = c as u32;
    (0x9 <= code && code <= 0xD) || code == 0x20 || code == 0x85 || code == 0xA0 || code
        == 0x1680 || (0x2000 <= code && code <= 0x200A) || code == 0x2028 || code == 0x2029
        || code == 0x202F || code == 0x205F || code == 0x3000
}

/// The characters of `text`.
pub fn chars_of(text: &str) -> (chars: Vec<char>)
    ensures
        chars@ == text@,
{
    let mut chars: Vec<char> = Vec::new();
    for c in iter: text.chars()
        invariant
            iter.seq() == text@,
            chars@ == iter.seq().take(iter.index() as int),
    {
        chars.push(c);
    }
    chars
}

/// The text made of `chars`.
pub fn text_of(chars: &Vec<char>) -> (text: String)
    ensures
        text@ == chars@,
{
    let mut text = String::new();
    let mut i: usize = 0;
    while i < chars.len()
        invariant
            i <= chars.len(),
            text@ == chars@.take(i as int),
        decreases chars.len() - i,
    {
        push_char(&mut text, chars[i]);
        i += 1;
    }
    text
}

/// The decimal digit for `d`, which is below ten.
pub open spec fn digit(d: nat) -> char {
    (('0' as u8) + d) as char
}

/// `n` in decimal digits, without leading zeros.
pub open spec fn digits(n: nat) -> Seq<char>
    decreases n,
{
    if n < 10 {
        seq![digit(n)]
    } else {
        digits(n / 10).push(digit(n % 10))
    }
}

/// `i` in decimal, with a minus sign before a negative number.
pub open spec fn decimal(i: int) -> Seq<char> {
    if i < 0 {
        seq!['-'] + digits((-i) as nat)
    } else {
        digits(i as nat)
    }
}

/// `i` in decimal.
pub fn decimal_of(i: i32) -> (text: String)
    ensures
        text@ == decimal(i as int),
{
    let negative = i < 0;
    let wide: i64 = i as i64;
    let mut rest: u32 = if negative {
        (0 - wide) as u32
    } else {
        wide as u32
    };
    let ghost whole: nat = rest as nat;
    // The digits of `rest`, the last one first.
    let mut reversed: Vec<char> = Vec::new();
    reversed.push(((rest % 10) as u8 + 48u8) as char);
    rest = rest / 10;
    while rest > 0
        invariant
            reversed@.len() > 0,
            digits(whole) == if rest == 0 {
                reversed@.reverse()
            } else {
                digits(rest as nat) + reversed@.reverse()
            },
        decreases rest,
    {
        reversed.push(((rest % 10) as u8 + 48u8) as char);
        rest = rest / 10;
    }
    let mut chars: Vec<char> = Vec::new();
    if negative {
        chars.push('-');
    }
    let ghost sign = chars@;
    let mut k: usize = reversed.len();
    while k > 0
        invariant
            k <= reversed.len(),
            chars@ == sign + reversed@.reverse().take(reversed.len() - k),
        decreases k,
    {
        k -= 1;
        chars.push(reversed[k]);
    }
    text_of(&chars)
}

/// Whether `c` is a decimal digit.
pub open spec fn is_digit(c: char) -> bool {
    '0' <= c <= '9'
}

/// Whether `body` holds decimal digits only.
pub open spec fn all_digits(body: Seq<char>) -> bool {
    forall|i: int| 0 <= i < body.len() ==> is_digit(#[trigger] body[i])
}

/// The number that the decimal digits `body` write.
pub open spec fn number(body: Seq<char>) -> nat
    decreases body.len(),
{
    if body.len() == 0 {
        0
    } else {
        number(body.drop_last()) * 10 + ((body.last() as u8) - ('0' as u8)) as nat
    }
}

/// The number that `text` writes in decimal, if it writes one that an `i32`
/// holds: a sign or none, then digits and nothing else, at least one.
pub open spec fn parsed_i32(text: Seq<char>) -> Option<i32> {
    let negative = text.len() > 0 && text[0] == '-';
    let signed = text.len() > 0 && (text[0] == '-' || text[0] == '+');
    let body = if signed {
        text.skip(1)
    } else {
        text
    };
    let value = if negative {
        -(number(body) as int)
    } else {
        number(body) as int
    };
    if body.len() > 0 && all_digits(body) && i32::MIN <= value <= i32::MAX {
        Some(value as i32)
    } else {
        None
    }
}

/// The digits of a number are digits, at least one, and write that number.
pub proof fn lemma_digits(n: nat)
    ensures
        digits(n).len() > 0,
        all_digits(digits(n)),
        number(digits(n)) == n,
    decreases n,
{
    if n < 10 {
        assert(number(digits(n).drop_last()) == 0);
    } else {
        lemma_digits(n / 10);
        assert(digits(n).drop_last() =~= digits(n / 10));
        assert forall|i: int| 0 <= i < digits(n).len() implies is_digit(
            #[trigger] digits(n)[i],
        ) by {}
    }
}

/// A whole number that is written in decimal and read again is the same
/// number.
pub proof fn law_decimal_is_read_back(i: i32)
    ensures
        parsed_i32(decimal(i as int)) == Some(i),
{
    let text = decimal(i as int);
    if i < 0 {
        let size = (-(i as int)) as nat;
        lemma_digits(size);
        assert(text.skip(1) =~= digits(size));
    } else {
        lemma_digits(i as nat);
    }
}

/// Reads `text` as a decimal number.
#[verifier::loop_isolation(false)]
pub fn parse_i32(text: &Vec<char>) -> (value: Option<i32>)
    ensures
        value == parsed_i32(text@),
{
    let n = text.len();
    let negative = n > 0 && text[0] == '-';
    let signed = n > 0 && (text[0] == '-' || text[0] == '+');
    let start: usize = if signed {
        1
    } else {
        0
    };
    let ghost body = text@.skip(start as int);
    if start == n {
        return None;
    }
    let limit: i64 = 2147483648;
    let mut total: i64 = 0;
    let mut over = false;
    let mut k: usize = start;
    while k < n
        invariant
            start <= k <= n,
            n == text@.len(),
            body == text@.skip(start as int),
            limit == 2147483648,
            forall|i: int| 0 <= i < k - start ==> is_digit(#[trigger] body[i]),
            0 <= total <= limit,
            !over ==> total == number(body.take(k - start)),
            over ==> number(body.take(k - start)) > limit,
        decreases n - k,
    {
        let c = text[k];
        if !('0' <= c && c <= '9') {
            proof {
                assert(body[k - start] == c);
            }
            return None;
        }
        let d: i64 = ((c as u8) - 48u8) as i64;
        proof {
            let upto = body.take(k - start + 1);
            assert(upto.drop_last() =~= body.take(k - start));
        }
        if !over {
            let next = total * 10 + d;
            if next > limit {
                over = true;
            } else {
                total = next;
            }
        }
        k += 1;
    }
    proof {
        assert(body.take(n - start) =~= body);
        assert(text@.skip(0) =~= text@);
    }
    if over {
        return None;
    }
    let value: i64 = if negative {
        0 - total
    } else {
        total
    };
    if value > 2147483647 {
        None
    } else {
        Some(value as i32)
    }
}

/// What is taken off the ends of a text.
pub enum Strip {
    /// White space.
    WhiteSpace,
    /// Double quotes.
    Quotes,
}

impl Strip {
    /// Whether `c` is taken off.
    pub open spec fn takes(self, c: char) -> bool {
        match self {
            Strip::WhiteSpace => is_white_space(c),
            Strip::Quotes => c == '"',
        }
    }

    fn test(&self, c: char) -> (taken: bool)
        ensures
            taken == self.takes(c),
    {
        match self {
            Strip::WhiteSpace => white_space(c),
            Strip::Quotes => c == '"',
        }
    }
}

/// `text` without the characters at its start that `strip` takes.
pub open spec fn stripped_start(text: Seq<char>, strip: Strip) -> Seq<char>
    decreases text.len(),
{
    if text.len() > 0 && strip.takes(text.first()) {
        stripped_start(text.drop_first(), strip)
    } else {
        text
    }
}

/// `text` without the characters at its end that `strip` takes.
pub open spec fn stripped_end(text: Seq<char>, strip: Strip) -> Seq<char>
    decreases text.len(),
{
    if text.len() > 0 && strip.takes(text.last()) {
        stripped_end(text.drop_last(), strip)
    } else {
        text
    }
}

/// `text` without the characters at both ends that `strip` takes.
pub open spec fn stripped(text: Seq<char>, strip: Strip) -> Seq<char> {
    stripped_end(stripped_start(text, strip), strip)
}

/// `text` without the white space at both ends.
pub open spec fn trimmed(text: Seq<char>) -> Seq<char> {
    stripped(text, Strip::WhiteSpace)
}

proof fn lemma_stripped_start(text: Seq<char>, strip: Strip, k: int)
    requires
        0 <= k <= text.len(),
        forall|i: int| 0 <= i < k ==> strip.takes(#[trigger] text[i]),
        k < text.len() ==> !strip.takes(text[k]),
    ensures
        stripped_start(text, strip) == text.skip(k),
    decreases k,
{
    if k > 0 {
        let rest = text.drop_first();
        assert forall|i: int| 0 <= i < k - 1 implies strip.takes(#[trigger] rest[i]) by {}
        lemma_stripped_start(rest, strip, k - 1);
    }
}

proof fn lemma_stripped_end(text: Seq<char>, strip: Strip, k: int)
    requires
        0 <= k <= text.len(),
        forall|i: int| k <= i < text.len() ==> strip.takes(#[trigger] text[i]),
        k > 0 ==> !strip.takes(text[k - 1]),
    ensures
        stripped_end(text, strip) == text.take(k),
    decreases text.len() - k,
{
    if k < text.len() {
        let rest = text.drop_last();
        lemma_stripped_end(rest, strip, k);
    }
}

/// `text` without the characters at both ends that `strip` takes.
pub fn strip(text: &Vec<char>, what: Strip) -> (inner: Vec<char>)
    ensures
        inner@ == stripped(text@, what),
{
    let n = text.len();
    let mut from: usize = 0;
    while from < n && what.test(text[from])
        invariant
            from <= n,
            n == text@.len(),
            forall|i: int| 0 <= i < from ==> what.takes(#[trigger] text@[i]),
        decreases n - from,
    {
        from += 1;
    }
    let mut to: usize = n;
    while to > from && what.test(text[to - 1])
        invariant
            from <= to <= n,
            n == text@.len(),
            forall|i: int| to <= i < n ==> what.takes(#[trigger] text@[i]),
        decreases to,
    {
        to -= 1;
    }
    let mut inner: Vec<char> = Vec::new();
    let mut k: usize = from;
    while k < to
        invariant
            from <= k <= to <= n,
            n == text@.len(),
            inner@ == text@.subrange(from as int, k as int),
        decreases to - k,
    {
        inner.push(text[k]);
        k += 1;
    }
    proof {
        lemma_stripped_start(text@, what, from as int);
        let rest = text@.skip(from as int);
        assert forall|i: int| to - from <= i < rest.len() implies what.takes(
            #[trigger] rest[i],
        ) by {}
        lemma_stripped_end(rest, what, to - from);
    }
    inner
}

/// `pattern` stands in `text` at place `at`.
pub open spec fn occurs_at(text: Seq<char>, pattern: Seq<char>, at: int) -> bool {
    0 <= at && at + pattern.len() <= text.len() && text.subrange(at, at + pattern.len())
        == pattern
}

/// Whether `pattern` stands in `text` at place `at`.
pub fn matches_at(text: &Vec<char>, pattern: &Vec<char>, at: usize) -> (found: bool)
    ensures
        found == occurs_at(text@, pattern@, at as int),
{
    let n = text.len();
    let m = pattern.len();
    if at > n || m > n - at {
        return false;
    }
    let mut k: usize = 0;
    while k < m
        invariant
            k <= m,
            m == pattern@.len(),
            n == text@.len(),
            at + m <= n,
            forall|i: int| 0 <= i < k ==> text@[at + i] == pattern@[i],
        decreases m - k,
    {
        if text[at + k] != pattern[k] {
            return false;
        }
        k += 1;
    }
    proof {
        assert(text@.subrange(at as int, at + m) =~= pattern@);
    }
    true
}

/// Whether `text` begins with `prefix`.
pub fn starts_with(text: &Vec<char>, prefix: &Vec<char>) -> (found: bool)
    ensures
        found == prefix@.is_prefix_of(text@),
{
    let found = matches_at(text, prefix, 0);
    found
}

/// The first place at or after `from` where `pattern` stands in `text`.
pub open spec fn first_at(text: Seq<char>, pattern: Seq<char>, from: int, at: int) -> bool {
    &&& from <= at
    &&& occurs_at(text, pattern, at)
    &&& forall|j: int| from <= j < at ==> !occurs_at(text, pattern, j)
}

/// The first place where `pattern` stands in `text`, if it stands anywhere.
pub open spec fn first_place(text: Seq<char>, pattern: Seq<char>) -> Option<int> {
    if exists|at: int| first_at(text, pattern, 0, at) {
        Some(choose|at: int| first_at(text, pattern, 0, at))
    } else {
        None
    }
}

/// The first place of a pattern is the only place that is the first.
pub proof fn lemma_first_place(text: Seq<char>, pattern: Seq<char>, at: int)
    requires
        first_at(text, pattern, 0, at),
    ensures
        first_place(text, pattern) == Some(at),
{
}

/// Looks for `pattern` in `text`, from place `from` on. Returns the first
/// place where it stands, if it stands anywhere.
pub fn find(text: &Vec<char>, pattern: &Vec<char>, from: usize) -> (place: Option<usize>)
    ensures
        match place {
            Some(at) => first_at(text@, pattern@, from as int, at as int),
            None => forall|j: int| from <= j ==> !occurs_at(text@, pattern@, j),
        },
{
    let n = text.len();
    if from > n {
        return None;
    }
    let mut at: usize = from;
    while at < n
        invariant
            from <= at <= n,
            n == text@.len(),
            forall|j: int| from <= j < at ==> !occurs_at(text@, pattern@, j),
        decreases n - at,
    {
        if matches_at(text, pattern, at) {
            return Some(at);
        }
        at += 1;
    }
    if matches_at(text, pattern, n) {
        Some(n)
    } else {
        None
    }
}

/// The characters of `text` from place `from` up to place `to`.
pub fn slice(text: &Vec<char>, from: usize, to: usize) -> (part: Vec<char>)
    requires
        from <= to <= text@.len(),
    ensures
        part@ == text@.subrange(from as int, to as int),
{
    let mut part: Vec<char> = Vec::new();
    let mut k: usize = from;
    while k < to
        invariant
            from <= k <= to <= text@.len(),
            part@ == text@.subrange(from as int, k as int),
        decreases to - k,
    {
        part.push(text[k]);
        k += 1;
    }
    part
}

} // verus!
