//! The best score kept between runs: where it is stored, how it is written
//! and how it is read back.
//!
//! The file holds the score in decimal. Reading tolerates surrounding white
//! space and falls back to zero for a missing, unreadable or malformed file.
use vstd::prelude::*;
use std::path::PathBuf;
use crate::text::{decimal, digit_char, zero_padded_text};

verus! {

/// std's `PathBuf`, carried through opaquely.
#[verifier::external_type_specification]
#[verifier::external_body]
pub struct ExPathBuf(std::path::PathBuf);

/// Where the best score is kept, if anywhere.
pub struct ScoreStore {
    path: Option<PathBuf>,
}

impl ScoreStore {
    pub closed spec fn location(&self) -> Option<PathBuf> {
        self.path
    }

    /// A store at `path`, as found from the environment by the caller
    /// (`None` when no location could be found: nothing is then kept).
    pub fn new(path: Option<PathBuf>) -> (store: ScoreStore)
        ensures
            store.location() == path,
    {
        ScoreStore { path }
    }

    /// A store at the given file.
    pub fn at(path: PathBuf) -> (store: ScoreStore)
        ensures
            store.location() == Some(path),
    {
        ScoreStore { path: Some(path) }
    }

    /// The file the score is kept in, if any.
    pub fn path(&self) -> (path: &Option<PathBuf>)
        ensures
            *path == self.location(),
    {
        &self.path
    }
}

/// Unicode's White_Space characters, which `str::trim` removes.
pub open spec fn is_white_space(c: char) -> bool {
    let u = c as u32;
    (0x09 <= u <= 0x0D) || u == 0x20 || u == 0x85 || u == 0xA0 || u == 0x1680 || (0x2000 <= u
        <= 0x200A) || u == 0x2028 || u == 0x2029 || u == 0x202F || u == 0x205F || u == 0x3000
}

/// `s` without its leading white space.
pub open spec fn trim_start(s: Seq<char>) -> Seq<char>
    decreases s.len(),
{
    if s.len() > 0 && is_white_space(s[0]) {
        trim_start(s.drop_first())
    } else {
        s
    }
}

/// `s` without its trailing white space.
pub open spec fn trim_end(s: Seq<char>) -> Seq<char>
    decreases s.len(),
{
    if s.len() > 0 && is_white_space(s.last()) {
        trim_end(s.drop_last())
    } else {
        s
    }
}

/// `s` without its leading and trailing white space.
pub open spec fn trimmed(s: Seq<char>) -> Seq<char> {
    trim_end(trim_start(s))
}

pub open spec fn is_digit(c: char) -> bool {
    '0' <= c <= '9'
}

/// The number that a run of decimal digits spells.
pub open spec fn digits_value(s: Seq<char>) -> nat
    decreases s.len(),
{
    if s.len() == 0 {
        0
    } else {
        10 * digits_value(s.drop_last()) + ((s.last() as u32) - ('0' as u32)) as nat
    }
}

/// `s` without its leading `+`, if it has one.
pub open spec fn unsigned_digits(s: Seq<char>) -> Seq<char> {
    if s.len() > 0 && s[0] == '+' {
        s.drop_first()
    } else {
        s
    }
}

/// What `u32::from_str` makes of `s`: an optional `+` followed by at least
/// one decimal digit, and nothing else, naming a number that fits in a `u32`.
pub open spec fn parse_u32(s: Seq<char>) -> Option<u32> {
    let digits = unsigned_digits(s);
    if digits.len() > 0 && (forall|i: int| 0 <= i < digits.len() ==> #[trigger] is_digit(digits[i]))
        && digits_value(digits) <= u32::MAX {
        Some(digits_value(digits) as u32)
    } else {
        None
    }
}

/// The score a file's text holds: the trimmed text parsed as a `u32`, or
/// zero when that fails.
pub open spec fn stored_score(text: Seq<char>) -> u32 {
    match parse_u32(trimmed(text)) {
        Some(n) => n,
        None => 0,
    }
}

/// Lengthening a run of digits never makes its value smaller.
proof fn lemma_digits_value_grows(s: Seq<char>, k: int)
    requires
        0 <= k <= s.len(),
    ensures
        digits_value(s.take(k)) <= digits_value(s),
    decreases s.len() - k,
{
    if k < s.len() {
        lemma_digits_value_grows(s, k + 1);
        assert(s.take(k + 1).drop_last() =~= s.take(k));
    } else {
        assert(s.take(k) =~= s);
    }
}

/// The characters of `text`.
fn chars_of(text: &str) -> (chars: Vec<char>)
    ensures
        chars@ == text@,
{
    broadcast use vstd::string::group_string_axioms;

    let mut chars: Vec<char> = Vec::new();
    for c in it: text.chars()
        invariant
            it.seq() == text@,
            chars@ == text@.take(it.index() as int),
    {
        chars.push(c);
        assert(chars@ =~= text@.take(it.index() + 1));
    }
    assert(chars@ =~= text@);
    chars
}

/// Whether `c` is one of Unicode's White_Space characters.
fn white_space(c: char) -> (r: bool)
    ensures
        r == is_white_space(c),
{
    let u = c as u32;
    (0x09 <= u && u <= 0x0D) || u == 0x20 || u == 0x85 || u == 0xA0 || u == 0x1680 || (0x2000 <= u
        && u <= 0x200A) || u == 0x2028 || u == 0x2029 || u == 0x202F || u == 0x205F || u == 0x3000
}

proof fn lemma_trim_start_skips(s: Seq<char>, k: int)
    requires
        0 <= k <= s.len(),
        forall|i: int| 0 <= i < k ==> is_white_space(#[trigger] s[i]),
    ensures
        trim_start(s) == trim_start(s.subrange(k, s.len() as int)),
    decreases k,
{
    if k > 0 {
        assert(is_white_space(s[0]));
        lemma_trim_start_skips(s.drop_first(), k - 1);
        assert(s.drop_first().subrange(k - 1, s.drop_first().len() as int) =~= s.subrange(
            k,
            s.len() as int,
        ));
    } else {
        assert(s.subrange(0, s.len() as int) =~= s);
    }
}

proof fn lemma_trim_end_skips(s: Seq<char>, k: int)
    requires
        0 <= k <= s.len(),
        forall|i: int| k <= i < s.len() ==> is_white_space(#[trigger] s[i]),
    ensures
        trim_end(s) == trim_end(s.subrange(0, k)),
    decreases s.len() - k,
{
    if k < s.len() {
        assert(is_white_space(s.last()));
        lemma_trim_end_skips(s.drop_last(), k);
        assert(s.drop_last().subrange(0, k) =~= s.subrange(0, k));
    } else {
        assert(s.subrange(0, k) =~= s);
    }
}

/// The score held by a file whose text is `text`: the text, stripped of
/// surrounding white space, read as a decimal `u32` (an optional `+`, then
/// digits), or zero when it is not one.
pub fn parse_score(text: &str) -> (score: u32)
    ensures
        score == stored_score(text@),
{
    let chars = chars_of(text);
    let len = chars.len();
    let mut start: usize = 0;
    while start < len && white_space(chars[start])
        invariant
            0 <= start <= len,
            len == chars@.len(),
            forall|i: int| 0 <= i < start ==> is_white_space(#[trigger] chars@[i]),
        decreases len - start,
    {
        start = start + 1;
    }
    proof {
        lemma_trim_start_skips(chars@, start as int);
    }
    let ghost rest = chars@.subrange(start as int, len as int);
    let mut end: usize = len;
    while end > start && white_space(chars[end - 1])
        invariant
            start <= end <= len,
            len == chars@.len(),
            rest == chars@.subrange(start as int, len as int),
            forall|i: int| end <= i < len ==> is_white_space(#[trigger] chars@[i]),
        decreases end - start,
    {
        end = end - 1;
    }
    let ghost core = chars@.subrange(start as int, end as int);
    proof {
        assert forall|i: int| (end - start) <= i < rest.len() implies is_white_space(
            #[trigger] rest[i],
        ) by {
            assert(rest[i] == chars@[i + start]);
        }
        lemma_trim_end_skips(rest, (end - start) as int);
        assert(rest.subrange(0, (end - start) as int) =~= core);
        if start < len {
            assert(!is_white_space(chars@[start as int]));
            assert(trim_start(rest) == rest);
        } else {
            assert(rest.len() == 0);
        }
        assert(trimmed(chars@) == core);
    }
    // An optional plus sign.
    let mut first = start;
    if first < end && chars[first] == '+' {
        first = first + 1;
    }
    let ghost digits = chars@.subrange(first as int, end as int);
    assert(digits =~= unsigned_digits(core));
    if first == end {
        return 0;
    }
    let mut i = first;
    while i < end
        invariant
            first <= i <= end <= len,
            len == chars@.len(),
            digits == chars@.subrange(first as int, end as int),
            chars@ == text@,
            trimmed(text@) == core,
            digits == unsigned_digits(core),
            forall|j: int| 0 <= j < i - first ==> #[trigger] is_digit(digits[j]),
        decreases end - i,
    {
        let c = chars[i];
        if !('0' <= c && c <= '9') {
            assert(!is_digit(digits[i - first]));
            assert(!(forall|j: int| 0 <= j < digits.len() ==> #[trigger] is_digit(digits[j])));
            assert(parse_u32(core) is None);
            return 0;
        }
        i = i + 1;
    }
    let mut value: u32 = 0;
    let mut i = first;
    while i < end
        invariant
            first <= i <= end <= len,
            len == chars@.len(),
            digits == chars@.subrange(first as int, end as int),
            chars@ == text@,
            trimmed(text@) == core,
            digits == unsigned_digits(core),
            digits.len() > 0,
            forall|j: int| 0 <= j < digits.len() ==> #[trigger] is_digit(digits[j]),
            value == digits_value(digits.take(i - first)),
        decreases end - i,
    {
        assert(is_digit(digits[i - first]));
        assert(digits[i - first] == chars@[i as int]);
        let digit = (chars[i] as u32) - ('0' as u32);
        assert(digits.take(i - first + 1).drop_last() =~= digits.take(i - first));
        if value > (u32::MAX - digit) / 10 {
            proof {
                lemma_digits_value_grows(digits, i - first + 1);
                assert(digits_value(digits) > u32::MAX);
                assert(parse_u32(core) is None);
            }
            return 0;
        }
        value = value * 10 + digit;
        i = i + 1;
    }
    assert(digits.take(digits.len() as int) =~= digits);
    value
}

/// The score read back from a store: the parsed text of its file, or zero
/// when the store has no file or the file could not be read (`None`).
pub fn loaded_score(contents: Option<&str>) -> (score: u32)
    ensures
        score == (match contents {
            Some(text) => stored_score(text@),
            None => 0,
        }),
{
    match contents {
        Some(text) => parse_score(text),
        None => 0,
    }
}

/// The text written to the store for `score`: its decimal digits.
pub fn score_text(score: u32) -> (text: String)
    ensures
        text@ == decimal(score as nat),
{
    let text = zero_padded_text(score, 0);
    text
}

/// The character of a decimal digit is a digit, and stands for it.
proof fn lemma_digit_char(d: int)
    requires
        0 <= d < 10,
    ensures
        is_digit(digit_char(d)),
        (digit_char(d) as u32) - ('0' as u32) == d,
{
}

/// The decimal digits of `n` are digits, and spell `n`.
proof fn lemma_decimal_spells(n: nat)
    ensures
        decimal(n).len() > 0,
        forall|i: int| 0 <= i < decimal(n).len() ==> #[trigger] is_digit(decimal(n)[i]),
        digits_value(decimal(n)) == n,
    decreases n,
{
    if n >= 10 {
        lemma_decimal_spells(n / 10);
        lemma_digit_char((n % 10) as int);
        let d = decimal(n);
        assert(d.drop_last() =~= decimal(n / 10));
        assert(d.last() == digit_char((n % 10) as int));
        assert(digits_value(d) == 10 * digits_value(decimal(n / 10)) + (n % 10));
        assert(10 * (n / 10) + n % 10 == n);
        assert forall|i: int| 0 <= i < d.len() implies #[trigger] is_digit(d[i]) by {
            if i < d.len() - 1 {
                assert(d[i] == decimal(n / 10)[i]);
            }
        }
    } else {
        lemma_digit_char(n as int);
        assert(decimal(n).drop_last() =~= Seq::<char>::empty());
        assert(digits_value(decimal(n)) == 10 * digits_value(Seq::<char>::empty()) + n);
    }
}

/// The best score round-trips: whatever `u32` is written, reading the text
/// back gives the same score, also when the file gained surrounding white
/// space such as a final newline.
pub proof fn law_score_round_trips(score: u32, before: Seq<char>, after: Seq<char>)
    requires
        forall|i: int| 0 <= i < before.len() ==> is_white_space(#[trigger] before[i]),
        forall|i: int| 0 <= i < after.len() ==> is_white_space(#[trigger] after[i]),
    ensures
        stored_score(decimal(score as nat)) == score,
        stored_score(before + decimal(score as nat) + after) == score,
{
    let d = decimal(score as nat);
    lemma_decimal_spells(score as nat);
    assert(is_digit(d[0]));
    assert(is_digit(d.last()));
    assert(trim_start(d) == d);
    assert(trim_end(d) == d);
    assert(unsigned_digits(d) == d);
    let text = before + d + after;
    lemma_trim_start_skips(text, before.len() as int);
    let rest = text.subrange(before.len() as int, text.len() as int);
    assert(rest =~= d + after);
    assert(trim_start(rest) == rest) by {
        assert(rest[0] == d[0]);
    }
    lemma_trim_end_skips(rest, d.len() as int);
    assert(rest.subrange(0, d.len() as int) =~= d);
}

} // verus!
