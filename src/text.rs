//! Reading digits out of text: the first whitespace-separated token of a line,
//! comma-separated digit lists, and the decimal text of a digit sequence.
use vstd::prelude::*;

verus! {

/// A character with the Unicode `White_Space` property.
pub open spec fn is_white_space(c: char) -> bool {
    let n = c as u32;
    ||| 9 <= n <= 13
    ||| n == 32
    ||| n == 0x85
    ||| n == 0xA0
    ||| n == 0x1680
    ||| 0x2000 <= n <= 0x200A
    ||| n == 0x2028
    ||| n == 0x2029
    ||| n == 0x202F
    ||| n == 0x205F
    ||| n == 0x3000
}

/// One of the characters '0' to '9'.
pub open spec fn is_ascii_digit(c: char) -> bool {
    48 <= c as u32 <= 57
}

/// The value of an ASCII digit character.
pub open spec fn digit_value(c: char) -> u8 {
    (c as u32 - 48) as u8
}

/// The character that writes a decimal digit.
pub open spec fn digit_char(d: u8) -> char {
    if d == 0 {
        '0'
    } else if d == 1 {
        '1'
    } else if d == 2 {
        '2'
    } else if d == 3 {
        '3'
    } else if d == 4 {
        '4'
    } else if d == 5 {
        '5'
    } else if d == 6 {
        '6'
    } else if d == 7 {
        '7'
    } else if d == 8 {
        '8'
    } else {
        '9'
    }
}

/// The decimal text of a sequence of digits.
pub open spec fn digit_text(d: Seq<u8>) -> Seq<char> {
    d.map_values(|x: u8| digit_char(x))
}

/// The first position at or after `i`, and before `end`, that holds no white space.
pub open spec fn skip_space(s: Seq<char>, i: int, end: int) -> int
    decreases end - i,
{
    if i < end && is_white_space(s[i]) {
        skip_space(s, i + 1, end)
    } else {
        i
    }
}

/// The end of the run of characters other than white space that starts at `i`.
pub open spec fn token_end(s: Seq<char>, i: int) -> int
    decreases s.len() - i,
{
    if 0 <= i < s.len() && !is_white_space(s[i]) {
        token_end(s, i + 1)
    } else {
        i
    }
}

/// The values of the ASCII digits among `s[a..b]`, in order.
pub open spec fn digits_in(s: Seq<char>, a: int, b: int) -> Seq<u8>
    decreases b - a,
{
    if b <= a {
        Seq::empty()
    } else if is_ascii_digit(s[b - 1]) {
        digits_in(s, a, b - 1).push(digit_value(s[b - 1]))
    } else {
        digits_in(s, a, b - 1)
    }
}

/// The digits of a line: the ASCII digits of its first token, where tokens
/// are separated by white space.
pub open spec fn line_digits(s: Seq<char>) -> Seq<u8> {
    let a = skip_space(s, 0, s.len() as int);
    digits_in(s, a, token_end(s, a))
}

/// The last position at or before `j`, and after `a`, that follows no white space.
pub open spec fn skip_space_back(s: Seq<char>, a: int, j: int) -> int
    decreases j - a,
{
    if a < j && is_white_space(s[j - 1]) {
        skip_space_back(s, a, j - 1)
    } else {
        j
    }
}

/// The value written in decimal by `s[a..b]`.
pub open spec fn decimal_value(s: Seq<char>, a: int, b: int) -> nat
    decreases b - a,
{
    if b <= a {
        0
    } else {
        decimal_value(s, a, b - 1) * 10 + digit_value(s[b - 1]) as nat
    }
}

/// `s[a..b]` read as a `u8`: an optional '+', then one or more ASCII digits
/// whose value is at most 255.
pub open spec fn parse_u8(s: Seq<char>, a: int, b: int) -> Option<u8> {
    let d = if a < b && s[a] == '+' { a + 1 } else { a };
    if d < b && (forall|k: int| d <= k < b ==> is_ascii_digit(#[trigger] s[k]))
        && decimal_value(s, d, b) <= 255 {
        Some(decimal_value(s, d, b) as u8)
    } else {
        None
    }
}

/// The entry `s[a..b]` of a comma-separated list: trimmed of white space at
/// both ends, then read as a `u8`.
pub open spec fn entry_value(s: Seq<char>, a: int, b: int) -> Option<u8> {
    let lo = skip_space(s, a, b);
    parse_u8(s, lo, skip_space_back(s, lo, b))
}

pub open spec fn option_seq(o: Option<u8>) -> Seq<u8> {
    match o {
        Some(v) => seq![v],
        None => Seq::empty(),
    }
}

/// The readable entries of the comma-separated list `s`, scanning from
/// position `i` inside the entry that starts at `start`.
pub open spec fn entries_from(s: Seq<char>, start: int, i: int) -> Seq<u8>
    decreases s.len() - i,
{
    if i >= s.len() {
        option_seq(entry_value(s, start, s.len() as int))
    } else if s[i] == ',' {
        option_seq(entry_value(s, start, i)) + entries_from(s, i + 1, i + 1)
    } else {
        entries_from(s, start, i + 1)
    }
}

/// The values of the entries of a comma-separated list that read as a `u8`,
/// in order; the others are dropped.
pub open spec fn digit_list(s: Seq<char>) -> Seq<u8> {
    entries_from(s, 0, 0)
}

/// The characters of a string.
pub fn chars_of(s: &str) -> (r: Vec<char>)
    ensures
        r@ == s@,
{
    let n = s.unicode_len();
    let mut r: Vec<char> = Vec::new();
    let mut i: usize = 0;
    while i < n
        invariant
            n == s@.len(),
            0 <= i <= n,
            r@ == s@.subrange(0, i as int),
        decreases n - i,
    {
        r.push(s.get_char(i));
        i = i + 1;
    }
    r
}

/// Whether a character has the Unicode `White_Space` property.
pub fn white_space(c: char) -> (r: bool)
    ensures
        r == is_white_space(c),
{
    let n = c as u32;
    (9 <= n && n <= 13) || n == 32 || n == 0x85 || n == 0xA0 || n == 0x1680 || (0x2000 <= n && n
        <= 0x200A) || n == 0x2028 || n == 0x2029 || n == 0x202F || n == 0x205F || n == 0x3000
}

/// The digits of a line: the ASCII digits of its first white-space-separated token.
pub fn extract_digits(line: &str) -> (r: Vec<u8>)
    ensures
        r@ == line_digits(line@),
        forall|k: int| 0 <= k < r@.len() ==> #[trigger] r@[k] < 10,
{
    let s = chars_of(line);
    let n = s.len();
    let mut i: usize = 0;
    while i < n && white_space(s[i])
        invariant
            s@ == line@,
            n == s@.len(),
            0 <= i <= n,
            skip_space(s@, i as int, n as int) == skip_space(s@, 0, n as int),
        decreases n - i,
    {
        i = i + 1;
    }
    let ghost a = i as int;
    let mut r: Vec<u8> = Vec::new();
    while i < n && !white_space(s[i])
        invariant
            s@ == line@,
            n == s@.len(),
            a <= i <= n,
            a == skip_space(s@, 0, n as int),
            token_end(s@, i as int) == token_end(s@, a),
            r@ == digits_in(s@, a, i as int),
            forall|k: int| 0 <= k < r@.len() ==> #[trigger] r@[k] < 10,
        decreases n - i,
    {
        let c = s[i];
        let v = c as u32;
        if 48 <= v && v <= 57 {
            r.push((v - 48) as u8);
        }
        i = i + 1;
    }
    r
}

proof fn lemma_decimal_value_grows(s: Seq<char>, a: int, k: int, b: int)
    requires
        a <= k <= b,
        forall|j: int| a <= j < b ==> is_ascii_digit(#[trigger] s[j]),
    ensures
        decimal_value(s, a, k) <= decimal_value(s, a, b),
    decreases b - k,
{
    if k < b {
        lemma_decimal_value_grows(s, a, k + 1, b);
    }
}

/// Reads the entry `s[a..b]` of a comma-separated list as a `u8`, after
/// trimming white space at both ends.
fn parse_entry(s: &Vec<char>, a: usize, b: usize) -> (r: Option<u8>)
    requires
        a <= b <= s@.len(),
    ensures
        r == entry_value(s@, a as int, b as int),
{
    let mut lo = a;
    while lo < b && white_space(s[lo])
        invariant
            a <= lo <= b <= s@.len(),
            skip_space(s@, lo as int, b as int) == skip_space(s@, a as int, b as int),
        decreases b - lo,
    {
        lo = lo + 1;
    }
    let mut hi = b;
    while lo < hi && white_space(s[hi - 1])
        invariant
            a <= lo <= hi <= b <= s@.len(),
            lo == skip_space(s@, a as int, b as int),
            skip_space_back(s@, lo as int, hi as int) == skip_space_back(s@, lo as int, b as int),
        decreases hi - lo,
    {
        hi = hi - 1;
    }
    let d = if lo < hi && s[lo] == '+' { lo + 1 } else { lo };
    if d >= hi {
        return None;
    }
    let mut value: u32 = 0;
    let mut k = d;
    while k < hi
        invariant
            d <= k <= hi <= s@.len(),
            lo == skip_space(s@, a as int, b as int),
            hi == skip_space_back(s@, lo as int, b as int),
            d == (if lo < hi && s@[lo as int] == '+' { lo + 1 } else { lo as int }),
            value == decimal_value(s@, d as int, k as int),
            value <= 255,
            forall|j: int| d <= j < k ==> is_ascii_digit(#[trigger] s@[j]),
        decreases hi - k,
    {
        let v = s[k] as u32;
        if !(48 <= v && v <= 57) {
            assert(!is_ascii_digit(s@[k as int]));
            return None;
        }
        value = value * 10 + (v - 48);
        k = k + 1;
        if value > 255 {
            proof {
                if forall|j: int| d <= j < hi ==> is_ascii_digit(#[trigger] s@[j]) {
                    lemma_decimal_value_grows(s@, d as int, k as int, hi as int);
                }
            }
            return None;
        }
    }
    Some(value as u8)
}

/// The entries of a comma-separated list that read as a `u8`, in order;
/// those that do not are dropped.
pub fn parse_digit_list(list: &str) -> (r: Vec<u8>)
    ensures
        r@ == digit_list(list@),
{
    let s = chars_of(list);
    let n = s.len();
    let mut r: Vec<u8> = Vec::new();
    let mut start: usize = 0;
    let mut i: usize = 0;
    while i < n
        invariant
            s@ == list@,
            n == s@.len(),
            0 <= start <= i <= n,
            r@ + entries_from(s@, start as int, i as int) == digit_list(s@),
        decreases n - i,
    {
        if s[i] == ',' {
            let e = parse_entry(&s, start, i);
            proof {
                vstd::seq_lib::lemma_concat_associative(r@, option_seq(e), entries_from(s@, (i + 1) as int, (i + 1) as int));
            }
            if let Some(v) = e {
                r.push(v);
            }
            start = i + 1;
        }
        i = i + 1;
    }
    let e = parse_entry(&s, start, n);
    if let Some(v) = e {
        r.push(v);
    }
    assert(r@ =~= digit_list(s@));
    r
}

/// The character that writes a decimal digit.
fn digit_to_char(d: u8) -> (r: char)
    requires
        d < 10,
    ensures
        r == digit_char(d),
{
    match d {
        0 => '0',
        1 => '1',
        2 => '2',
        3 => '3',
        4 => '4',
        5 => '5',
        6 => '6',
        7 => '7',
        8 => '8',
        _ => '9',
    }
}

/// The one-character text of a decimal digit.
pub fn digit_str(d: u8) -> (r: &'static str)
    requires
        d < 10,
    ensures
        r@ == seq![digit_char(d)],
{
    proof {
        reveal_strlit("0");
        reveal_strlit("1");
        reveal_strlit("2");
        reveal_strlit("3");
        reveal_strlit("4");
        reveal_strlit("5");
        reveal_strlit("6");
        reveal_strlit("7");
        reveal_strlit("8");
        reveal_strlit("9");
    }
    match d {
        0 => "0",
        1 => "1",
        2 => "2",
        3 => "3",
        4 => "4",
        5 => "5",
        6 => "6",
        7 => "7",
        8 => "8",
        _ => "9",
    }
}

/// The decimal text of a sequence of digits.
pub fn digits_to_string(d: &[u8; 10]) -> (r: String)
    requires
        forall|k: int| 0 <= k < 10 ==> #[trigger] d@[k] < 10,
    ensures
        r@ == digit_text(d@),
{
    let mut r = String::new();
    let mut i: usize = 0;
    while i < 10
        invariant
            0 <= i <= 10,
            forall|k: int| 0 <= k < 10 ==> #[trigger] d@[k] < 10,
            r@ == digit_text(d@.subrange(0, i as int)),
        decreases 10 - i,
    {
        r.append(digit_str(d[i]));
        assert(digit_text(d@.subrange(0, i + 1)) =~= digit_text(d@.subrange(0, i as int)).push(
            digit_char(d@[i as int]),
        ));
        i = i + 1;
    }
    assert(d@.subrange(0, 10) =~= d@);
    r
}

/// `p` is a prefix of the decimal text of `d`.
pub open spec fn text_starts_with(d: Seq<u8>, p: Seq<char>) -> bool {
    p.len() <= d.len() && p == digit_text(d).subrange(0, p.len() as int)
}

/// Whether the decimal text of the digits starts with `prefix`.
pub fn digits_start_with(d: &[u8; 10], prefix: &str) -> (r: bool)
    requires
        forall|k: int| 0 <= k < 10 ==> #[trigger] d@[k] < 10,
    ensures
        r == text_starts_with(d@, prefix@),
{
    let p = chars_of(prefix);
    let n = p.len();
    if n > 10 {
        return false;
    }
    let mut i: usize = 0;
    while i < n
        invariant
            p@ == prefix@,
            n == p@.len() <= 10,
            0 <= i <= n,
            forall|k: int| 0 <= k < 10 ==> #[trigger] d@[k] < 10,
            forall|k: int| 0 <= k < i ==> p@[k] == digit_char(#[trigger] d@[k]),
        decreases n - i,
    {
        if p[i] != digit_to_char(d[i]) {
            assert(p@[i as int] != digit_char(d@[i as int]));
            assert(p@[i as int] != digit_text(d@).subrange(0, n as int)[i as int]);
            return false;
        }
        i = i + 1;
    }
    assert(p@ =~= digit_text(d@).subrange(0, n as int));
    true
}

} // verus!
