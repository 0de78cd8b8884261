//! Strings as character sequences: lists of strings, decimal numerals, and
//! the searches and number parsing that the planners rely on.

use vstd::prelude::*;

verus! {

/// The character contents of each string of a list, in order.
pub open spec fn strs(v: Seq<String>) -> Seq<Seq<char>> {
    v.map_values(|s: String| s@)
}

/// The contents of an optional string.
pub open spec fn opt_str(o: Option<String>) -> Option<Seq<char>> {
    match o {
        Some(s) => Some(s@),
        None => None,
    }
}

/// Appends a copy of `s` to a list of strings.
pub fn push_str(list: &mut Vec<String>, s: &str)
    ensures
        strs(final(list)@) == strs(old(list)@).push(s@),
{
    list.push(String::from_str(s));
    proof {
        assert(strs(list@) =~= strs(old(list)@).push(s@));
    }
}

/// A copy of a list of strings.
pub fn clone_strs(list: &Vec<String>) -> (r: Vec<String>)
    ensures
        strs(r@) == strs(list@),
{
    let mut out: Vec<String> = Vec::new();
    let mut i: usize = 0;
    while i < list.len()
        invariant
            i <= list.len(),
            strs(out@) == strs(list@).take(i as int),
        decreases list.len() - i,
    {
        push_str(&mut out, list[i].as_str());
        proof {
            assert(strs(list@).take(i as int).push(list[i as int]@) =~= strs(list@).take(
                i as int + 1,
            ));
        }
        i += 1;
    }
    proof {
        assert(strs(list@).take(list.len() as int) =~= strs(list@));
    }
    out
}

/// The character that writes the digit `d`.
pub open spec fn digit_char(d: nat) -> char {
    if d == 0 {
        '0'
    } else if d == 1 {
        '1'
    } else if d == 2 {
        '2'
    } else if d == 3 {
        '3'
    } else if d == 4 {
        '4'
    } else if d == 5 {
        '5'
    } else if d == 6 {
        '6'
    } else if d == 7 {
        '7'
    } else if d == 8 {
        '8'
    } else {
        '9'
    }
}

/// The decimal numeral of `n`, without sign or leading zeros.
pub open spec fn decimal(n: nat) -> Seq<char>
    decreases n,
{
    if n < 10 {
        seq![digit_char(n)]
    } else {
        decimal(n / 10).push(digit_char(n % 10))
    }
}

/// The decimal numeral of `n`, padded with a zero to at least two digits.
pub open spec fn decimal_two(n: nat) -> Seq<char> {
    if n < 10 {
        seq!['0'] + decimal(n)
    } else {
        decimal(n)
    }
}

fn digit_str(d: u64) -> (s: &'static str)
    requires
        d < 10,
    ensures
        s@ == seq![digit_char(d as nat)],
{
    proof {
        reveal_strlit("0");
        reveal_strlit("1");
        reveal_strlit("2");
        reveal_strlit("3");
        reveal_strlit("4");
        reveal_strlit("5");
        reveal_strlit("6");
        reveal_strlit("7");
        reveal_strlit("8");
        reveal_strlit("9");
    }
    let s: &'static str = if d == 0 {
        "0"
    } else if d == 1 {
        "1"
    } else if d == 2 {
        "2"
    } else if d == 3 {
        "3"
    } else if d == 4 {
        "4"
    } else if d == 5 {
        "5"
    } else if d == 6 {
        "6"
    } else if d == 7 {
        "7"
    } else if d == 8 {
        "8"
    } else {
        "9"
    };
    proof {
        assert(s@ =~= seq![digit_char(d as nat)]);
    }
    s
}

/// Appends the decimal numeral of `n` to `out`.
pub fn append_decimal(out: &mut String, n: u64)
    ensures
        final(out)@ == old(out)@ + decimal(n as nat),
    decreases n,
{
    if n >= 10 {
        append_decimal(out, n / 10);
    }
    out.append(digit_str(n % 10));
    proof {
        assert(out@ =~= old(out)@ + decimal(n as nat));
    }
}

/// The decimal numeral of `n` as a string.
pub fn decimal_string(n: u64) -> (r: String)
    ensures
        r@ == decimal(n as nat),
{
    let mut out = String::new();
    append_decimal(&mut out, n);
    proof {
        assert(out@ =~= decimal(n as nat));
    }
    out
}

/// Appends the numeral of `n`, zero-padded to two digits, to `out`.
pub fn append_decimal_two(out: &mut String, n: u64)
    ensures
        final(out)@ == old(out)@ + decimal_two(n as nat),
{
    if n < 10 {
        proof {
            reveal_strlit("0");
        }
        out.append("0");
    }
    append_decimal(out, n);
    proof {
        assert(out@ =~= old(out)@ + decimal_two(n as nat));
    }
}

/// `pat` stands in `text` at index `i`.
pub open spec fn occurs_at(text: Seq<char>, pat: Seq<char>, i: int) -> bool {
    0 <= i && i + pat.len() <= text.len() && text.subrange(i, i + pat.len()) == pat
}

/// `pat` stands somewhere in `text`.
pub open spec fn contains_seq(text: Seq<char>, pat: Seq<char>) -> bool {
    exists|i: int| occurs_at(text, pat, i)
}

/// `text` ends with `pat`.
pub open spec fn ends_with_seq(text: Seq<char>, pat: Seq<char>) -> bool {
    pat.len() <= text.len() && text.skip(text.len() - pat.len()) == pat
}

/// Every character of `s` is an ASCII digit.
pub open spec fn all_digits(s: Seq<char>) -> bool {
    forall|i: int| 0 <= i < s.len() ==> '0' <= #[trigger] s[i] <= '9'
}

/// The number that a run of ASCII digits writes in base ten.
pub open spec fn digits_value(s: Seq<char>) -> nat
    decreases s.len(),
{
    if s.len() == 0 {
        0
    } else {
        digits_value(s.drop_last()) * 10 + ((s.last() as int - '0' as int) as nat)
    }
}

/// What is left of a numeral once its optional `+` is taken off.
pub open spec fn unsigned_digits(s: Seq<char>) -> Seq<char> {
    if s.len() > 0 && s[0] == '+' {
        s.skip(1)
    } else {
        s
    }
}

/// The number written by `s`: an optional `+`, then one or more ASCII digits
/// and nothing else.
pub open spec fn parse_unsigned(s: Seq<char>) -> Option<nat> {
    let digits = unsigned_digits(s);
    if digits.len() > 0 && all_digits(digits) {
        Some(digits_value(digits))
    } else {
        None
    }
}

/// The number written by `s`, where it fits a `usize`.
pub open spec fn parse_usize_spec(s: Seq<char>) -> Option<usize> {
    match parse_unsigned(s) {
        Some(n) => if n <= usize::MAX {
            Some(n as usize)
        } else {
            None
        },
        None => None,
    }
}

/// A character with the Unicode property `White_Space`.
pub open spec fn is_space(c: char) -> bool {
    let n = c as u32;
    (0x09 <= n <= 0x0D) || n == 0x20 || n == 0x85 || n == 0xA0 || n == 0x1680 || (0x2000 <= n
        <= 0x200A) || n == 0x2028 || n == 0x2029 || n == 0x202F || n == 0x205F || n == 0x3000
}

/// Whether the character is whitespace.
pub fn char_is_space(c: char) -> (r: bool)
    ensures
        r == is_space(c),
{
    let n: u32 = c as u32;
    (0x09 <= n && n <= 0x0D) || n == 0x20 || n == 0x85 || n == 0xA0 || n == 0x1680 || (0x2000 <= n
        && n <= 0x200A) || n == 0x2028 || n == 0x2029 || n == 0x202F || n == 0x205F || n == 0x3000
}

/// Copies the characters of a string, by `str::chars`. Trusted: the
/// characters are those of the string, in order.
#[verifier::external_body]
pub(crate) fn str_chars(s: &str) -> (r: Vec<char>)
    ensures
        r@ == s@,
{
    s.chars().collect()
}

/// Collects characters into a string, by `String::from_iter`. Trusted: the
/// string holds those characters, in order.
#[verifier::external_body]
pub(crate) fn chars_to_string(chars: &Vec<char>) -> (r: String)
    ensures
        r@ == chars@,
{
    String::from_iter(chars.iter())
}

fn matches_at(text: &Vec<char>, pat: &Vec<char>, i: usize) -> (r: bool)
    requires
        i + pat.len() <= text.len(),
    ensures
        r == occurs_at(text@, pat@, i as int),
{
    let mut j: usize = 0;
    while j < pat.len()
        invariant
            j <= pat.len(),
            i + pat.len() <= text.len(),
            forall|t: int| 0 <= t < j ==> text@[i + t] == pat@[t],
        decreases pat.len() - j,
    {
        if text[i + j] != pat[j] {
            proof {
                assert(text@.subrange(i as int, i + pat.len())[j as int] == text@[i + j]);
            }
            return false;
        }
        j += 1;
    }
    proof {
        assert(text@.subrange(i as int, i + pat.len()) =~= pat@);
    }
    true
}

/// Whether the characters of `pat` stand consecutively somewhere in `text`.
pub fn contains(text: &str, pat: &str) -> (r: bool)
    ensures
        r == contains_seq(text@, pat@),
{
    let t = str_chars(text);
    let p = str_chars(pat);
    if p.len() > t.len() {
        return false;
    }
    let last: usize = t.len() - p.len();
    let mut i: usize = 0;
    loop
        invariant
            i <= last,
            last + p.len() == t.len(),
            t@ == text@,
            p@ == pat@,
            forall|k: int| 0 <= k < i ==> !occurs_at(t@, p@, k),
        decreases last - i,
    {
        if matches_at(&t, &p, i) {
            return true;
        }
        if i == last {
            return false;
        }
        i += 1;
    }
}

/// Whether the last characters of `text` are those of `pat`.
pub fn ends_with(text: &str, pat: &str) -> (r: bool)
    ensures
        r == ends_with_seq(text@, pat@),
{
    let t = str_chars(text);
    let p = str_chars(pat);
    if p.len() > t.len() {
        return false;
    }
    proof {
        assert(t@.skip(t.len() - p.len()) =~= t@.subrange(
            t.len() - p.len(),
            t.len() - p.len() + p.len(),
        ));
    }
    matches_at(&t, &p, t.len() - p.len())
}

proof fn lemma_digits_value_grows(s: Seq<char>, k: int)
    requires
        all_digits(s),
        0 <= k <= s.len(),
    ensures
        digits_value(s.take(k)) <= digits_value(s),
    decreases s.len() - k,
{
    if k == s.len() {
        assert(s.take(k) =~= s);
    } else {
        assert(s.take(k + 1).drop_last() =~= s.take(k));
        assert('0' <= s[k] <= '9');
        lemma_digits_value_grows(s, k + 1);
    }
}

/// Reads a number: an optional `+`, then one or more ASCII digits whose
/// value fits a `usize`. Anything else is no number.
pub fn parse_usize(s: &str) -> (r: Option<usize>)
    ensures
        r == parse_usize_spec(s@),
{
    let chars = str_chars(s);
    let start: usize = if chars.len() > 0 && chars[0] == '+' {
        1
    } else {
        0
    };
    let ghost digits = unsigned_digits(s@);
    if start == chars.len() {
        return None;
    }
    let mut acc: usize = 0;
    let mut k: usize = start;
    proof {
        assert(digits.take(0) =~= Seq::<char>::empty());
    }
    while k < chars.len()
        invariant
            start <= k <= chars.len(),
            chars@ == s@,
            digits == unsigned_digits(s@),
            digits.len() == chars.len() - start,
            forall|j: int| 0 <= j < digits.len() ==> digits[j] == chars@[start + j],
            all_digits(digits.take(k - start)),
            acc == digits_value(digits.take(k - start)),
        decreases chars.len() - k,
    {
        let c = chars[k];
        let ghost at = k - start;
        proof {
            assert(digits[at] == c);
            assert(digits.take(at + 1).drop_last() =~= digits.take(at));
            assert(digits.take(at + 1).last() == c);
        }
        if c < '0' || c > '9' {
            proof {
                assert(!('0' <= digits[at] <= '9'));
            }
            return None;
        }
        let d: usize = (c as u32 - '0' as u32) as usize;
        proof {
            assert forall|i: int| 0 <= i < digits.take(at + 1).len() implies '0'
                <= #[trigger] digits.take(at + 1)[i] <= '9' by {
                if i < at {
                    assert(digits.take(at)[i] == digits.take(at + 1)[i]);
                }
            }
        }
        if acc > (usize::MAX - d) / 10 {
            proof {
                assert(digits_value(digits.take(at + 1)) == acc * 10 + d);
                assert(acc * 10 + d > usize::MAX) by (nonlinear_arith)
                    requires
                        acc > (usize::MAX - d) / 10,
                        d < 10,
                ;
                if all_digits(digits) {
                    lemma_digits_value_grows(digits, at + 1);
                }
            }
            return None;
        }
        assert(acc * 10 + d <= usize::MAX) by (nonlinear_arith)
            requires
                acc <= (usize::MAX - d) / 10,
                d < 10,
        ;
        acc = acc * 10 + d;
        k += 1;
    }
    proof {
        assert(digits.take(digits.len() as int) =~= digits);
    }
    Some(acc)
}

/// A sequence without its trailing whitespace.
pub open spec fn trim_end(s: Seq<char>) -> Seq<char>
    decreases s.len(),
{
    if s.len() > 0 && is_space(s.last()) {
        trim_end(s.drop_last())
    } else {
        s
    }
}

/// A sequence without its leading whitespace.
pub open spec fn trim_start(s: Seq<char>) -> Seq<char>
    decreases s.len(),
{
    if s.len() > 0 && is_space(s[0]) {
        trim_start(s.drop_first())
    } else {
        s
    }
}

/// A line without its leading and trailing whitespace.
pub open spec fn trimmed(s: Seq<char>) -> Seq<char> {
    trim_start(trim_end(s))
}

fn copy_range(chars: &Vec<char>, from: usize, to: usize) -> (r: String)
    requires
        from <= to <= chars.len(),
    ensures
        r@ == chars@.subrange(from as int, to as int),
{
    let mut part: Vec<char> = Vec::new();
    let mut i: usize = from;
    while i < to
        invariant
            from <= i <= to <= chars.len(),
            part@ == chars@.subrange(from as int, i as int),
        decreases to - i,
    {
        part.push(chars[i]);
        proof {
            assert(part@ =~= chars@.subrange(from as int, i as int + 1));
        }
        i += 1;
    }
    chars_to_string(&part)
}

/// Removes the whitespace at both ends of a line.
pub fn trim(line: &str) -> (r: String)
    ensures
        r@ == trimmed(line@),
{
    let chars = str_chars(line);
    let mut end: usize = chars.len();
    proof {
        assert(chars@.take(end as int) =~= chars@);
    }
    while end > 0 && char_is_space(chars[end - 1])
        invariant
            end <= chars.len(),
            trim_end(chars@) == trim_end(chars@.take(end as int)),
        decreases end,
    {
        proof {
            assert(chars@.take(end as int).drop_last() =~= chars@.take(end - 1));
        }
        end -= 1;
    }
    proof {
        assert(chars@.take(end as int) =~= chars@.subrange(0, end as int));
    }
    let mut start: usize = 0;
    while start < end && char_is_space(chars[start])
        invariant
            start <= end <= chars.len(),
            trim_start(chars@.subrange(0, end as int)) == trim_start(
                chars@.subrange(start as int, end as int),
            ),
        decreases end - start,
    {
        proof {
            assert(chars@.subrange(start as int, end as int).drop_first() =~= chars@.subrange(
                start + 1,
                end as int,
            ));
        }
        start += 1;
    }
    copy_range(&chars, start, end)
}

/// The first index from `i` on that holds a line feed, or the length of `s`.
pub open spec fn line_end(s: Seq<char>, i: int) -> int
    decreases s.len() - i,
{
    if 0 <= i < s.len() && s[i] != '\n' {
        line_end(s, i + 1)
    } else {
        i
    }
}

/// A line without the carriage return that stood before its line feed.
pub open spec fn strip_cr(line: Seq<char>) -> Seq<char> {
    if line.len() > 0 && line.last() == '\r' {
        line.drop_last()
    } else {
        line
    }
}

/// The lines of `s` from index `i` on.
pub open spec fn lines_from(s: Seq<char>, i: int) -> Seq<Seq<char>>
    decreases s.len() - i,
{
    if i < 0 || i >= s.len() {
        Seq::empty()
    } else {
        let end = line_end(s, i);
        if end < i {
            Seq::empty()
        } else if end < s.len() {
            seq![strip_cr(s.subrange(i, end))] + lines_from(s, end + 1)
        } else {
            seq![s.subrange(i, s.len() as int)]
        }
    }
}

/// The lines of a text. A line ends at a line feed, and a carriage return
/// just before that line feed belongs to the ending. The text's last line
/// needs no ending, and an empty text has no line.
pub open spec fn lines_of(text: Seq<char>) -> Seq<Seq<char>> {
    lines_from(text, 0)
}

/// Splits a text into its lines.
pub fn lines(text: &str) -> (r: Vec<String>)
    ensures
        strs(r@) == lines_of(text@),
{
    let chars = str_chars(text);
    let mut out: Vec<String> = Vec::new();
    let mut i: usize = 0;
    proof {
        assert(strs(out@) + lines_from(chars@, 0) =~= lines_of(text@));
    }
    while i < chars.len()
        invariant
            i <= chars.len(),
            chars@ == text@,
            strs(out@) + lines_from(chars@, i as int) == lines_of(text@),
        decreases chars.len() - i,
    {
        let ghost before = strs(out@);
        let mut end: usize = i;
        while end < chars.len() && chars[end] != '\n'
            invariant
                i <= end <= chars.len(),
                line_end(chars@, i as int) == line_end(chars@, end as int),
            decreases chars.len() - end,
        {
            end += 1;
        }
        if end < chars.len() {
            let stop: usize = if end > i && chars[end - 1] == '\r' {
                end - 1
            } else {
                end
            };
            let line = copy_range(&chars, i, stop);
            proof {
                let whole = chars@.subrange(i as int, end as int);
                if end > i {
                    assert(whole.last() == chars@[end - 1]);
                }
                assert(line@ =~= strip_cr(whole));
            }
            push_str(&mut out, line.as_str());
            proof {
                assert(strs(out@) + lines_from(chars@, end + 1) =~= before + (seq![line@]
                    + lines_from(chars@, end + 1)));
            }
            i = end + 1;
        } else {
            let line = copy_range(&chars, i, end);
            push_str(&mut out, line.as_str());
            proof {
                assert(strs(out@) + lines_from(chars@, end as int) =~= before + seq![line@]);
            }
            i = end;
        }
    }
    proof {
        assert(strs(out@) + lines_from(chars@, chars.len() as int) =~= strs(out@));
    }
    out
}

/// A string in lower case, as `str::to_lowercase` writes it.
pub uninterp spec fn lowercase_of(s: Seq<char>) -> Seq<char>;

/// Calls `str::to_lowercase`. Trusted: the result is a function of the
/// string alone, named `lowercase_of`.
#[verifier::external_body]
pub(crate) fn str_to_lowercase(s: &str) -> (r: String)
    ensures
        r@ == lowercase_of(s@),
{
    s.to_lowercase()
}

/// The two strings, one after the other.
pub fn joined(a: &str, b: &str) -> (r: String)
    ensures
        r@ == a@ + b@,
{
    let mut out = String::from_str(a);
    out.append(b);
    out
}

} // verus!
