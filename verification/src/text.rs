//! Character-level helpers over strings: prefixes, search, splitting, lines
//! and decimal numbers, each with its meaning as a spec function.

use vstd::prelude::*;

verus! {

broadcast use vstd::string::group_string_axioms;

/// `String::push` appends one character.
pub assume_specification[ String::push ](s: &mut String, ch: char)
    ensures
        final(s)@ == old(s)@.push(ch),
;

/// The characters of a string.
pub fn to_chars(s: &str) -> (r: Vec<char>)
    ensures
        r@ == s@,
{
    let mut out: Vec<char> = Vec::new();
    for c in it: s.chars()
        invariant
            out@ == it.seq().take(it.index() as int),
            it.seq() == s@,
    {
        out.push(c);
        assert(out@ =~= it.seq().take(it.index() as int + 1));
    }
    out
}

/// The string made of the characters `v[start..end]`.
pub fn string_of(v: &Vec<char>, start: usize, end: usize) -> (r: String)
    requires
        start <= end <= v@.len(),
    ensures
        r@ == v@.subrange(start as int, end as int),
{
    let mut out = String::new();
    let mut i: usize = start;
    while i < end
        invariant
            start <= i <= end <= v@.len(),
            out@ == v@.subrange(start as int, i as int),
        decreases end - i,
    {
        out.push(v[i]);
        i += 1;
        assert(out@ =~= v@.subrange(start as int, i as int));
    }
    out
}

/// Whether `v[start..]` begins with `pat`.
pub fn starts_with_at(v: &Vec<char>, start: usize, pat: &Vec<char>) -> (r: bool)
    requires
        start <= v@.len(),
    ensures
        r == (start + pat@.len() <= v@.len() && v@.subrange(
            start as int,
            start + pat@.len(),
        ) == pat@),
{
    if pat.len() > v.len() - start {
        return false;
    }
    let vlen = v.len();
    let mut i: usize = 0;
    while i < pat.len()
        invariant
            vlen == v@.len(),
            i <= pat@.len(),
            start + pat@.len() <= v@.len(),
            forall|k: int| 0 <= k < i ==> v@[start + k] == pat@[k],
        decreases pat@.len() - i,
    {
        if v[start + i] != pat[i] {
            assert(v@.subrange(start as int, start + pat@.len())[i as int] != pat@[i as int]);
            return false;
        }
        i += 1;
    }
    assert(v@.subrange(start as int, start + pat@.len()) =~= pat@);
    true
}

/// The first position at or after `from` where `pat` occurs in `s`.
pub open spec fn find_from(s: Seq<char>, pat: Seq<char>, from: int) -> Option<int>
    decreases s.len() - from,
{
    if from < 0 || from + pat.len() > s.len() {
        None
    } else if s.subrange(from, from + pat.len()) == pat {
        Some(from)
    } else if from >= s.len() {
        None
    } else {
        find_from(s, pat, from + 1)
    }
}

/// The first position where `pat` occurs in `s`.
pub open spec fn find(s: Seq<char>, pat: Seq<char>) -> Option<int> {
    find_from(s, pat, 0)
}

/// The first position where `pat` occurs in `v`.
pub fn find_chars(v: &Vec<char>, pat: &Vec<char>) -> (r: Option<usize>)
    ensures
        r matches Some(i) ==> find(v@, pat@) == Some(i as int),
        r is None ==> find(v@, pat@) is None,
{
    let mut i: usize = 0;
    while i < v.len() && pat.len() <= v.len() - i
        invariant
            i <= v@.len(),
            find(v@, pat@) == find_from(v@, pat@, i as int),
        decreases v@.len() - i,
    {
        if starts_with_at(v, i, pat) {
            return Some(i);
        }
        i += 1;
    }
    if i < v.len() || pat.len() > v.len() {
        assert(find_from(v@, pat@, i as int) is None);
    } else {
        assert(i == v@.len());
        if pat.len() == 0 {
            assert(v@.subrange(i as int, i as int) =~= pat@);
            return Some(i);
        }
    }
    None
}

/// Where `find_from` finds `pat`, it lies within `s` at or after `from`.
pub proof fn lemma_find_in_bounds(s: Seq<char>, pat: Seq<char>, from: int)
    ensures
        find_from(s, pat, from) matches Some(i) ==> from <= i && i + pat.len() <= s.len()
            && s.subrange(i, i + pat.len()) == pat,
    decreases s.len() - from,
{
    if !(from < 0 || from + pat.len() > s.len()) && s.subrange(from, from + pat.len()) != pat
        && from < s.len() {
        lemma_find_in_bounds(s, pat, from + 1);
    }
}

/// Where `whitespace_from` finds a position, it lies within `s` at or after
/// `from` and holds white space.
pub proof fn lemma_whitespace_from_in_bounds(s: Seq<char>, from: int)
    ensures
        whitespace_from(s, from) matches Some(i) ==> from <= i < s.len() && is_white_space(s[i]),
    decreases s.len() - from,
{
    if 0 <= from < s.len() && !is_white_space(s[from]) {
        lemma_whitespace_from_in_bounds(s, from + 1);
    }
}

/// Unicode's White_Space property, which `char::is_whitespace` tests.
pub open spec fn is_white_space(c: char) -> bool {
    ||| '\t' <= c <= '\r'
    ||| c == ' '
    ||| c == '\u{85}'
    ||| c == '\u{a0}'
    ||| c == '\u{1680}'
    ||| '\u{2000}' <= c <= '\u{200a}'
    ||| c == '\u{2028}'
    ||| c == '\u{2029}'
    ||| c == '\u{202f}'
    ||| c == '\u{205f}'
    ||| c == '\u{3000}'
}

/// Whether `c` has Unicode's White_Space property.
pub fn is_whitespace(c: char) -> (r: bool)
    ensures
        r == is_white_space(c),
{
    ('\t' <= c && c <= '\r') || c == ' ' || c == '\u{85}' || c == '\u{a0}' || c == '\u{1680}' || (
    '\u{2000}' <= c && c <= '\u{200a}') || c == '\u{2028}' || c == '\u{2029}' || c == '\u{202f}'
        || c == '\u{205f}' || c == '\u{3000}'
}

/// The first position at or after `from` of a white-space character.
pub open spec fn whitespace_from(s: Seq<char>, from: int) -> Option<int>
    decreases s.len() - from,
{
    if from < 0 || from >= s.len() {
        None
    } else if is_white_space(s[from]) {
        Some(from)
    } else {
        whitespace_from(s, from + 1)
    }
}

/// The first position at or after `from` of a white-space character in `v`.
pub fn find_whitespace(v: &Vec<char>, from: usize) -> (r: Option<usize>)
    requires
        from <= v@.len(),
    ensures
        r matches Some(i) ==> whitespace_from(v@, from as int) == Some(i as int),
        r is None ==> whitespace_from(v@, from as int) is None,
{
    let mut i: usize = from;
    while i < v.len()
        invariant
            from <= i <= v@.len(),
            whitespace_from(v@, from as int) == whitespace_from(v@, i as int),
        decreases v@.len() - i,
    {
        if is_whitespace(v[i]) {
            return Some(i);
        }
        i += 1;
    }
    None
}

/// The pieces of `s` between occurrences of `sep`, as `str::split` gives
/// them: one more piece than there are separators, empty pieces included.
pub open spec fn split_char(s: Seq<char>, sep: char) -> Seq<Seq<char>>
    decreases s.len(),
{
    if s.len() == 0 {
        seq![Seq::<char>::empty()]
    } else {
        let pieces = split_char(s.drop_last(), sep);
        if s.last() == sep {
            pieces.push(Seq::<char>::empty())
        } else {
            pieces.update(pieces.len() - 1, pieces.last().push(s.last()))
        }
    }
}

/// `split_char` always yields at least one piece.
pub proof fn lemma_split_char_nonempty(s: Seq<char>, sep: char)
    ensures
        split_char(s, sep).len() >= 1,
    decreases s.len(),
{
    if s.len() > 0 {
        lemma_split_char_nonempty(s.drop_last(), sep);
    }
}

/// The pieces of `v[start..end]` between occurrences of `sep`.
pub fn split_chars(v: &Vec<char>, start: usize, end: usize, sep: char) -> (r: Vec<String>)
    requires
        start <= end <= v@.len(),
    ensures
        r@.map_values(|s: String| s@) == split_char(v@.subrange(start as int, end as int), sep),
{
    let ghost s = v@.subrange(start as int, end as int);
    let mut done: Vec<String> = Vec::new();
    let mut piece_start: usize = start;
    let mut i: usize = start;
    assert(s.take(0) =~= Seq::<char>::empty());
    assert(v@.subrange(piece_start as int, i as int) =~= Seq::<char>::empty());
    assert(done@.map_values(|x: String| x@) =~= Seq::<Seq<char>>::empty());
    assert(done@.map_values(|x: String| x@).push(v@.subrange(piece_start as int, i as int))
        =~= split_char(s.take(0), sep));
    while i < end
        invariant
            start <= piece_start <= i <= end <= v@.len(),
            s == v@.subrange(start as int, end as int),
            done@.map_values(|x: String| x@).push(v@.subrange(piece_start as int, i as int))
                == split_char(s.take(i - start), sep),
        decreases end - i,
    {
        let ghost prev = s.take(i - start);
        assert(s.take(i - start + 1).drop_last() =~= prev);
        assert(s.take(i - start + 1).last() == v@[i as int]);
        proof {
            lemma_split_char_nonempty(prev, sep);
        }
        let ghost before = done@.map_values(|x: String| x@);
        if v[i] == sep {
            let piece = string_of(v, piece_start, i);
            let ghost piece_view = piece@;
            done.push(piece);
            assert(done@.map_values(|x: String| x@) =~= before.push(piece_view));
            piece_start = i + 1;
            assert(v@.subrange(piece_start as int, (i + 1) as int) =~= Seq::<char>::empty());
            assert(done@.map_values(|x: String| x@).push(
                v@.subrange(piece_start as int, (i + 1) as int),
            ) =~= split_char(s.take(i - start + 1), sep));
        } else {
            assert(v@.subrange(piece_start as int, (i + 1) as int) =~= v@.subrange(
                piece_start as int,
                i as int,
            ).push(v@[i as int]));
            assert(done@.map_values(|x: String| x@).push(
                v@.subrange(piece_start as int, (i + 1) as int),
            ) =~= split_char(s.take(i - start + 1), sep));
        }
        i += 1;
    }
    let last = string_of(v, piece_start, end);
    let ghost before = done@.map_values(|x: String| x@);
    let ghost last_view = last@;
    done.push(last);
    assert(done@.map_values(|x: String| x@) =~= before.push(last_view));
    assert(s.take(end - start) =~= s);
    assert(done@.map_values(|x: String| x@) =~= split_char(s, sep));
    done
}

/// Whether every character is an ASCII digit.
pub open spec fn all_digits(s: Seq<char>) -> bool {
    forall|i: int| 0 <= i < s.len() ==> '0' <= #[trigger] s[i] <= '9'
}

/// A number's digits: the string without a leading `+`.
pub open spec fn unsigned_digits(s: Seq<char>) -> Seq<char> {
    if s.len() > 0 && s[0] == '+' {
        s.drop_first()
    } else {
        s
    }
}

/// The value of a string of decimal digits.
pub open spec fn digits_value(s: Seq<char>) -> int
    decreases s.len(),
{
    if s.len() == 0 {
        0
    } else {
        10 * digits_value(s.drop_last()) + (s.last() as int - '0' as int)
    }
}

/// What `str::parse` gives for an unsigned integer type whose largest value
/// is `max`: an optional `+`, then at least one decimal digit, and a value no
/// larger than `max`.
pub open spec fn parse_unsigned(s: Seq<char>, max: int) -> Option<int> {
    let digits = unsigned_digits(s);
    if digits.len() > 0 && all_digits(digits) && digits_value(digits) <= max {
        Some(digits_value(digits))
    } else {
        None
    }
}

/// A parsed unsigned number is not negative.
pub proof fn lemma_parse_unsigned_nonneg(s: Seq<char>, max: int)
    ensures
        parse_unsigned(s, max) matches Some(v) ==> 0 <= v,
{
    let digits = unsigned_digits(s);
    if digits.len() > 0 && all_digits(digits) && digits_value(digits) <= max {
        lemma_digits_value_nonneg(digits);
    }
}

/// The value of a digit string never falls when digits are added.
proof fn lemma_digits_value_grows(s: Seq<char>, k: int)
    requires
        0 <= k <= s.len(),
        all_digits(s),
    ensures
        0 <= digits_value(s.take(k)) <= digits_value(s),
    decreases s.len() - k,
{
    if k < s.len() {
        lemma_digits_value_grows(s, k + 1);
        assert(s.take(k + 1).drop_last() =~= s.take(k));
        assert('0' <= s[k] <= '9');
    } else {
        assert(s.take(k) =~= s);
        lemma_digits_value_nonneg(s);
    }
}

proof fn lemma_digits_value_nonneg(s: Seq<char>)
    requires
        all_digits(s),
    ensures
        digits_value(s) >= 0,
    decreases s.len(),
{
    if s.len() > 0 {
        assert(all_digits(s.drop_last()));
        lemma_digits_value_nonneg(s.drop_last());
        assert('0' <= s[s.len() - 1] <= '9');
    }
}

/// Parses `v[start..end]` as an unsigned integer no larger than `max`, as
/// `str::parse` does.
pub fn parse_unsigned_chars(v: &Vec<char>, start: usize, end: usize, max: u64) -> (r: Option<u64>)
    requires
        start <= end <= v@.len(),
    ensures
        r matches Some(x) ==> parse_unsigned(v@.subrange(start as int, end as int), max as int)
            == Some(x as int),
        r is None ==> parse_unsigned(v@.subrange(start as int, end as int), max as int) is None,
{
    let ghost s = v@.subrange(start as int, end as int);
    let mut first = start;
    if start < end && v[start] == '+' {
        first = start + 1;
    }
    let ghost digits = v@.subrange(first as int, end as int);
    assert(digits =~= unsigned_digits(s));
    if first == end {
        return None;
    }
    let mut acc: u64 = 0;
    let mut i: usize = first;
    while i < end
        invariant
            first <= i <= end <= v@.len(),
            first < end,
            digits == v@.subrange(first as int, end as int),
            digits == unsigned_digits(s),
            s == v@.subrange(start as int, end as int),
            all_digits(digits.take(i - first)),
            acc == digits_value(digits.take(i - first)),
            acc <= max,
        decreases end - i,
    {
        let c = v[i];
        assert(digits.take(i - first + 1).drop_last() =~= digits.take(i - first));
        assert(digits.take(i - first + 1).last() == c);
        if !('0' <= c && c <= '9') {
            assert(!all_digits(digits)) by {
                assert(digits[i - first] == c);
            }
            return None;
        }
        let d: u64 = (c as u32 - '0' as u32) as u64;
        assert(all_digits(digits.take(i - first + 1))) by {
            assert forall|k: int| 0 <= k < i - first + 1 implies '0' <= #[trigger] digits.take(
                i - first + 1,
            )[k] <= '9' by {
                if k < i - first {
                    assert(digits.take(i - first + 1)[k] == digits.take(i - first)[k]);
                }
            }
        }
        if d > max || acc > (max - d) / 10 {
            assert(10 * acc + d > max) by (nonlinear_arith)
                requires
                    d > max || acc > (max - d) / 10,
                    d <= 9,
            ;
            proof {
                if all_digits(digits) {
                    lemma_digits_value_grows(digits, i - first + 1);
                }
            }
            return None;
        }
        assert(10 * acc + d <= max) by (nonlinear_arith)
            requires
                acc <= (max - d) / 10,
                d <= max,
        ;
        acc = 10 * acc + d;
        i += 1;
    }
    assert(digits.take(end - first) =~= digits);
    Some(acc)
}

/// The lines of `s` as `str::lines` gives them: split after each `\n`, the
/// `\n` dropped, and a `\r` right before it dropped too; no line after a
/// final `\n`.
pub open spec fn lines(s: Seq<char>) -> Seq<Seq<char>> {
    let (done, current) = lines_scan(s);
    if current.len() == 0 {
        done
    } else {
        done.push(current)
    }
}

/// The finished lines and the unfinished one after reading `s`.
pub open spec fn lines_scan(s: Seq<char>) -> (Seq<Seq<char>>, Seq<char>)
    decreases s.len(),
{
    if s.len() == 0 {
        (Seq::empty(), Seq::empty())
    } else {
        let (done, current) = lines_scan(s.drop_last());
        if s.last() == '\n' {
            (done.push(strip_cr(current)), Seq::empty())
        } else {
            (done, current.push(s.last()))
        }
    }
}

/// A line without the `\r` that ended it.
pub open spec fn strip_cr(line: Seq<char>) -> Seq<char> {
    if line.len() > 0 && line.last() == '\r' {
        line.drop_last()
    } else {
        line
    }
}

/// The lines of `v`.
pub fn lines_of(v: &Vec<char>) -> (r: Vec<Vec<char>>)
    ensures
        r@.map_values(|l: Vec<char>| l@) == lines(v@),
{
    let mut done: Vec<Vec<char>> = Vec::new();
    let mut current: Vec<char> = Vec::new();
    let mut i: usize = 0;
    while i < v.len()
        invariant
            i <= v@.len(),
            (done@.map_values(|l: Vec<char>| l@), current@) == lines_scan(v@.take(i as int)),
        decreases v@.len() - i,
    {
        assert(v@.take(i + 1).drop_last() =~= v@.take(i as int));
        if v[i] == '\n' {
            let ghost before = current@;
            if current.len() > 0 && current[current.len() - 1] == '\r' {
                current.pop();
            }
            assert(current@ =~= strip_cr(before));
            done.push(current);
            current = Vec::new();
            assert(done@.map_values(|l: Vec<char>| l@) =~= lines_scan(v@.take(i + 1)).0);
        } else {
            current.push(v[i]);
            assert(current@ =~= lines_scan(v@.take(i + 1)).1);
        }
        i += 1;
    }
    assert(v@.take(v@.len() as int) =~= v@);
    if current.len() > 0 {
        done.push(current);
        assert(done@.map_values(|l: Vec<char>| l@) =~= lines(v@));
    }
    done
}

/// The decimal digit character of `d < 10`.
pub open spec fn digit_char(d: int) -> char {
    ((d + '0' as int) as u32) as char
}

/// The decimal representation of `n`, as `{n}` formats it.
pub open spec fn decimal(n: nat) -> Seq<char>
    decreases n,
{
    if n < 10 {
        seq![digit_char(n as int)]
    } else {
        decimal(n / 10).push(digit_char((n % 10) as int))
    }
}

/// The decimal digit of `d`.
fn digit(d: usize) -> (r: char)
    requires
        d < 10,
    ensures
        r == digit_char(d as int),
{
    let b: u8 = 48 + d as u8;
    b as char
}

/// The decimal representation of `n`.
pub fn decimal_chars(n: usize) -> (r: Vec<char>)
    ensures
        r@ == decimal(n as nat),
    decreases n,
{
    if n < 10 {
        let r = vec![digit(n)];
        assert(r@ =~= decimal(n as nat));
        r
    } else {
        let mut r = decimal_chars(n / 10);
        r.push(digit(n % 10));
        r
    }
}

/// The digits of `{n}` are decimal digits whose value is `n`.
proof fn lemma_decimal_digits(n: nat)
    ensures
        decimal(n).len() >= 1,
        all_digits(decimal(n)),
        digits_value(decimal(n)) == n,
    decreases n,
{
    let c = digit_char((n % 10) as int);
    assert(c as int == (n % 10) + '0' as int);
    if n >= 10 {
        lemma_decimal_digits(n / 10);
        let d = decimal(n / 10);
        assert(decimal(n) == d.push(c));
        assert(decimal(n).drop_last() =~= d);
        assert(decimal(n).last() == c);
        assert(digits_value(decimal(n)) == 10 * digits_value(d) + (c as int - '0' as int));
        assert(n == 10 * (n / 10) + n % 10);
        assert forall|i: int| 0 <= i < decimal(n).len() implies '0' <= #[trigger] decimal(n)[i]
            <= '9' by {
            if i < d.len() {
                assert(decimal(n)[i] == d[i]);
            }
        }
    } else {
        assert(decimal(n).drop_last() =~= Seq::<char>::empty());
        assert(decimal(n).last() == c);
        assert(digits_value(decimal(n)) == 10 * digits_value(Seq::<char>::empty()) + (c as int
            - '0' as int));
    }
}

/// `{n}` writes at least one digit, and only digits.
pub proof fn lemma_decimal_len(n: nat)
    ensures
        decimal(n).len() >= 1,
        all_digits(decimal(n)),
{
    lemma_decimal_digits(n);
}

/// Parsing reads back what `{n}` writes: the decimal digits of `n` parse as
/// `n` wherever `n` is at most the type's largest value.
pub proof fn lemma_parse_decimal(n: nat, max: int)
    requires
        n <= max,
    ensures
        parse_unsigned(decimal(n), max) == Some(n as int),
{
    lemma_decimal_digits(n);
    assert('0' <= decimal(n)[0] <= '9');
}

/// The first `c` in `d + [c] + rest`, where `d` holds only digits and `c` is
/// no digit, is the one after `d`.
pub proof fn lemma_find_after_digits(d: Seq<char>, c: char, rest: Seq<char>, from: int)
    requires
        all_digits(d),
        !('0' <= c <= '9'),
        0 <= from <= d.len(),
    ensures
        find_from(d + seq![c] + rest, seq![c], from) == Some(d.len() as int),
    decreases d.len() - from,
{
    let s = d + seq![c] + rest;
    if from < d.len() {
        assert(s.subrange(from, from + 1)[0] == d[from]);
        lemma_find_after_digits(d, c, rest, from + 1);
    } else {
        assert(s.subrange(from, from + 1) =~= seq![c]);
    }
}

} // verus!
