use vstd::prelude::*;

verus! {

/// `String::push` appends one character to the end of the string.
pub assume_specification[ std::string::String::push ](s: &mut std::string::String, ch: char)
    ensures
        final(s)@ == old(s)@.push(ch),
;

/// The characters of a string slice, in order.
pub fn chars_of(s: &str) -> (v: Vec<char>)
    ensures
        v@ == s@,
{
    let mut v: Vec<char> = Vec::new();
    for c in it: s.chars()
        invariant
            v@ == it.seq().take(it.index() as int),
    {
        v.push(c);
    }
    v
}

/// A `String` holding the given characters.
pub fn string_of(v: &[char]) -> (s: String)
    ensures
        s@ == v@,
{
    let mut s = String::new();
    let mut i: usize = 0;
    while i < v.len()
        invariant
            i <= v@.len(),
            s@ == v@.take(i as int),
        decreases v@.len() - i,
    {
        s.push(v[i]);
        i = i + 1;
        assert(s@ =~= v@.take(i as int));
    }
    assert(v@.take(i as int) =~= v@);
    s
}

/// The pieces of `s` between occurrences of `sep`, as `str::split` yields
/// them: there is always at least one piece, and a separator at either end
/// gives an empty piece there.
pub open spec fn split_on(s: Seq<char>, sep: char) -> Seq<Seq<char>>
    decreases s.len(),
{
    if s.len() == 0 {
        seq![Seq::<char>::empty()]
    } else {
        let prev = split_on(s.drop_last(), sep);
        if s.last() == sep {
            prev.push(Seq::<char>::empty())
        } else {
            prev.update(prev.len() - 1, prev.last().push(s.last()))
        }
    }
}

/// There is always at least one piece.
pub proof fn lemma_split_on_nonempty(s: Seq<char>, sep: char)
    ensures
        split_on(s, sep).len() >= 1,
    decreases s.len(),
{
    if s.len() > 0 {
        lemma_split_on_nonempty(s.drop_last(), sep);
    }
}

/// The lines of `text`: the pieces between newline characters.
pub fn split_lines(text: &str) -> (lines: Vec<Vec<char>>)
    ensures
        lines@.len() == split_on(text@, '\n').len(),
        forall|i: int| 0 <= i < lines@.len() ==> #[trigger] lines@[i]@ == split_on(text@, '\n')[i],
{
    let chars = chars_of(text);
    let mut lines: Vec<Vec<char>> = Vec::new();
    let mut current: Vec<char> = Vec::new();
    let mut i: usize = 0;
    while i < chars.len()
        invariant
            i <= chars@.len(),
            chars@ == text@,
            lines@.len() + 1 == split_on(chars@.take(i as int), '\n').len(),
            forall|j: int|
                0 <= j < lines@.len() ==> #[trigger] lines@[j]@ == split_on(
                    chars@.take(i as int),
                    '\n',
                )[j],
            current@ == split_on(chars@.take(i as int), '\n').last(),
        decreases chars@.len() - i,
    {
        let c = chars[i];
        proof {
            lemma_split_on_nonempty(chars@.take(i as int), '\n');
            assert(chars@.take(i + 1).drop_last() =~= chars@.take(i as int));
        }
        if c == '\n' {
            let done = current;
            lines.push(done);
            current = Vec::new();
            assert(current@ =~= Seq::<char>::empty());
        } else {
            current.push(c);
        }
        i = i + 1;
    }
    proof {
        lemma_split_on_nonempty(chars@.take(i as int), '\n');
        assert(chars@.take(i as int) =~= text@);
    }
    lines.push(current);
    lines
}

/// The ASCII digit character for `d` (`0 <= d < 10`).
pub open spec fn digit_char(d: int) -> char {
    (d + 48) as char
}

/// The decimal digits of `n`, most significant first, without leading zeros.
pub open spec fn digits_of(n: nat) -> Seq<char>
    decreases n,
{
    if n < 10 {
        seq![digit_char(n as int)]
    } else {
        digits_of(n / 10).push(digit_char((n % 10) as int))
    }
}

/// The decimal text of `v`, as `to_string` writes an integer: a minus sign
/// for negative values, then the digits of the magnitude.
pub open spec fn decimal(v: int) -> Seq<char> {
    if v < 0 {
        seq!['-'] + digits_of((-v) as nat)
    } else {
        digits_of(v as nat)
    }
}

fn push_digits(n: u64, out: &mut Vec<char>)
    ensures
        final(out)@ == old(out)@ + digits_of(n as nat),
    decreases n,
{
    if n < 10 {
        let d: u8 = n as u8;
        out.push((d + 48) as char);
    } else {
        push_digits(n / 10, out);
        let d: u8 = (n % 10) as u8;
        out.push((d + 48) as char);
    }
}

/// The decimal text of `v` (what `v.to_string()` gives).
pub fn format_i64(v: i64) -> (s: Vec<char>)
    ensures
        s@ == decimal(v as int),
{
    let mut out: Vec<char> = Vec::new();
    if v < 0 {
        out.push('-');
        let magnitude: u64 = (-(v as i128)) as u64;
        push_digits(magnitude, &mut out);
    } else {
        push_digits(v as u64, &mut out);
    }
    out
}

/// Why text is not a decimal `i64`, as `str::parse::<i64>` reports it.
#[derive(Debug, Clone, Copy, PartialEq, Eq, Structural)]
pub enum IntErrorKind {
    /// The text is empty.
    Empty,
    /// A character is not a digit (a lone sign counts as one).
    InvalidDigit,
    /// The value is above `i64::MAX`.
    PosOverflow,
    /// The value is below `i64::MIN`.
    NegOverflow,
}

/// Whether `c` is one of the ASCII digits.
pub open spec fn is_digit(c: char) -> bool {
    '0' <= c <= '9'
}

/// Scans the digits of `s` from the left onto `acc`, adding (or, for a
/// negative number, subtracting) each digit after multiplying by ten; the first
/// non-digit, or the first step that leaves the range of `i64`, is the error.
pub open spec fn scan_digits(s: Seq<char>, acc: int, negative: bool) -> Result<int, IntErrorKind>
    decreases s.len(),
{
    if s.len() == 0 {
        Ok(acc)
    } else if !is_digit(s[0]) {
        Err(IntErrorKind::InvalidDigit)
    } else {
        let d = s[0] as int - 48;
        let next = if negative { acc * 10 - d } else { acc * 10 + d };
        if next > i64::MAX {
            Err(IntErrorKind::PosOverflow)
        } else if next < i64::MIN {
            Err(IntErrorKind::NegOverflow)
        } else {
            scan_digits(s.drop_first(), next, negative)
        }
    }
}

/// What `str::parse::<i64>` gives for `s`: an optional sign, then one or more
/// decimal digits.
pub open spec fn parse_int(s: Seq<char>) -> Result<int, IntErrorKind> {
    if s.len() == 0 {
        Err(IntErrorKind::Empty)
    } else if s[0] == '+' || s[0] == '-' {
        if s.len() == 1 {
            Err(IntErrorKind::InvalidDigit)
        } else {
            scan_digits(s.drop_first(), 0, s[0] == '-')
        }
    } else {
        scan_digits(s, 0, false)
    }
}

/// Scanning one more character continues from where the scan stopped.
proof fn lemma_scan_push(s: Seq<char>, c: char, acc: int, negative: bool, x: int)
    requires
        scan_digits(s, acc, negative) == Ok::<int, IntErrorKind>(x),
    ensures
        scan_digits(s.push(c), acc, negative) == scan_digits(seq![c], x, negative),
    decreases s.len(),
{
    if s.len() > 0 {
        let d = s[0] as int - 48;
        let next = if negative { acc * 10 - d } else { acc * 10 + d };
        assert(s.push(c).drop_first() =~= s.drop_first().push(c));
        lemma_scan_push(s.drop_first(), c, next, negative, x);
    } else {
        assert(s.push(c) =~= seq![c]);
    }
}

/// The digits of `n` scan back to `n`, or to `-n` for a negative number,
/// when that value is an `i64`.
proof fn lemma_scan_digits_of(n: nat, negative: bool)
    requires
        negative ==> n <= 0x8000_0000_0000_0000,
        !negative ==> n <= 0x7fff_ffff_ffff_ffff,
    ensures
        scan_digits(digits_of(n), 0, negative) == Ok::<int, IntErrorKind>(if negative { -n } else { n as int }),
    decreases n,
{
    let c = digit_char((n % 10) as int);
    let x: int = if n < 10 { 0 } else if negative { -(n / 10) } else { (n / 10) as int };
    vstd::arithmetic::div_mod::lemma_fundamental_div_mod(n as int, 10);
    if n < 10 {
        assert(digits_of(n) =~= seq![c]);
        assert(scan_digits(seq![c].take(0), 0, negative) == Ok::<int, IntErrorKind>(x));
        assert(seq![c].take(0).push(c) =~= seq![c]);
    } else {
        lemma_scan_digits_of(n / 10, negative);
        lemma_scan_push(digits_of(n / 10), c, 0, negative, x);
        assert(digits_of(n) == digits_of(n / 10).push(c));
    }
    assert(c as int == n % 10 + 48);
    assert(is_digit(c));
    let next: int = if negative { x * 10 - (n % 10) } else { x * 10 + (n % 10) };
    assert(next == if negative { -n } else { n as int });
    assert(seq![c].drop_first() =~= Seq::<char>::empty());
    assert(scan_digits(seq![c], x, negative) == scan_digits(Seq::<char>::empty(), next, negative));
}

/// Parsing the decimal text of an `i64` gives the number back.
pub proof fn lemma_parse_decimal(v: i64)
    ensures
        parse_int(decimal(v as int)) == Ok::<int, IntErrorKind>(v as int),
{
    if v < 0 {
        let n: nat = (-v) as nat;
        lemma_scan_digits_of(n, true);
        let s = decimal(v as int);
        assert(s.drop_first() =~= digits_of(n));
        lemma_digits_start(n);
    } else {
        lemma_scan_digits_of(v as nat, false);
        lemma_digits_start(v as nat);
    }
}

/// The text of a number starts with a digit.
proof fn lemma_digits_start(n: nat)
    ensures
        digits_of(n).len() > 0,
        is_digit(digits_of(n)[0]),
    decreases n,
{
    if n >= 10 {
        lemma_digits_start(n / 10);
    }
}

/// Parses a decimal `i64` the way `str::parse::<i64>` does.
pub fn parse_i64(s: &[char]) -> (r: Result<i64, IntErrorKind>)
    ensures
        match r {
            Ok(v) => parse_int(s@) == Ok::<int, IntErrorKind>(v as int),
            Err(e) => parse_int(s@) == Err::<int, IntErrorKind>(e),
        },
{
    if s.len() == 0 {
        return Err(IntErrorKind::Empty);
    }
    let mut i: usize = 0;
    let mut negative = false;
    if s[0] == '+' || s[0] == '-' {
        if s.len() == 1 {
            return Err(IntErrorKind::InvalidDigit);
        }
        negative = s[0] == '-';
        i = 1;
    }
    let ghost rest = s@.skip(i as int);
    assert(parse_int(s@) == scan_digits(rest, 0, negative)) by {
        if i == 1 {
            assert(rest =~= s@.drop_first());
        } else {
            assert(rest =~= s@);
        }
    }
    let mut acc: i64 = 0;
    while i < s.len()
        invariant
            1 <= s@.len(),
            i <= s@.len(),
            parse_int(s@) == scan_digits(s@.skip(i as int), acc as int, negative),
        decreases s@.len() - i,
    {
        let c = s[i];
        assert(s@.skip(i as int)[0] == c);
        if !('0' <= c && c <= '9') {
            return Err(IntErrorKind::InvalidDigit);
        }
        let d: i128 = (c as u32 - 48) as i128;
        let next: i128 = if negative { acc as i128 * 10 - d } else { acc as i128 * 10 + d };
        if next > i64::MAX as i128 {
            return Err(IntErrorKind::PosOverflow);
        }
        if next < i64::MIN as i128 {
            return Err(IntErrorKind::NegOverflow);
        }
        assert(s@.skip(i as int).drop_first() =~= s@.skip(i + 1));
        acc = next as i64;
        i = i + 1;
    }
    Ok(acc)
}

/// `s` without one leading and one trailing double quote, when it has both
/// (what `strip_prefix('"')` then `strip_suffix('"')` give); otherwise `s`.
pub open spec fn strip_quotes(s: Seq<char>) -> Seq<char> {
    if s.len() >= 2 && s[0] == '"' && s.last() == '"' {
        s.subrange(1, s.len() - 1)
    } else {
        s
    }
}

/// `s` with every occurrence of the two characters `a`, `b` replaced by `c`,
/// occurrences found from the left without overlap (as `str::replace` does).
pub open spec fn replace_pair(s: Seq<char>, a: char, b: char, c: char) -> Seq<char>
    decreases s.len(),
{
    if s.len() < 2 {
        s
    } else if s[0] == a && s[1] == b {
        seq![c] + replace_pair(s.skip(2), a, b, c)
    } else {
        seq![s[0]] + replace_pair(s.drop_first(), a, b, c)
    }
}

/// The value of a C string literal's text: the quotes taken off, then the
/// escapes `\n`, `\t`, `\r`, `\"` and `\\` replaced, one kind after the other
/// in that order.
pub open spec fn literal_value(s: Seq<char>) -> Seq<char> {
    let inner = strip_quotes(s);
    let a = replace_pair(inner, '\\', 'n', '\n');
    let b = replace_pair(a, '\\', 't', '\t');
    let c = replace_pair(b, '\\', 'r', '\r');
    let d = replace_pair(c, '\\', '"', '"');
    replace_pair(d, '\\', '\\', '\\')
}

/// Text in which `a` does not occur is left as it is.
proof fn lemma_replace_pair_absent(s: Seq<char>, a: char, b: char, c: char)
    requires
        !s.contains(a),
    ensures
        replace_pair(s, a, b, c) == s,
    decreases s.len(),
{
    if s.len() >= 2 {
        assert(s[0] != a);
        assert forall|x: char| s.drop_first().contains(x) implies s.contains(x) by {
            let j = choose|j: int| 0 <= j < s.drop_first().len() && s.drop_first()[j] == x;
            assert(s[j + 1] == x);
        }
        lemma_replace_pair_absent(s.drop_first(), a, b, c);
        assert(seq![s[0]] + s.drop_first() =~= s);
    }
}

/// A string literal without backslashes reads as the text between its quotes.
pub proof fn lemma_plain_literal(text: Seq<char>)
    requires
        !text.contains('\\'),
    ensures
        literal_value(seq!['"'] + text + seq!['"']) == text,
{
    let s = seq!['"'] + text + seq!['"'];
    assert(s.subrange(1, s.len() - 1) =~= text);
    lemma_replace_pair_absent(text, '\\', 'n', '\n');
    lemma_replace_pair_absent(text, '\\', 't', '\t');
    lemma_replace_pair_absent(text, '\\', 'r', '\r');
    lemma_replace_pair_absent(text, '\\', '"', '"');
    lemma_replace_pair_absent(text, '\\', '\\', '\\');
}

/// Takes off one leading and one trailing double quote when both are there.
pub fn strip_quotes_exec(s: &[char]) -> (r: Vec<char>)
    ensures
        r@ == strip_quotes(s@),
{
    let n = s.len();
    let mut out: Vec<char> = Vec::new();
    let (from, to) = if n >= 2 && s[0] == '"' && s[n - 1] == '"' {
        (1, n - 1)
    } else {
        (0, n)
    };
    let mut i: usize = from;
    while i < to
        invariant
            from <= i <= to <= n == s@.len(),
            out@ == s@.subrange(from as int, i as int),
        decreases to - i,
    {
        out.push(s[i]);
        i = i + 1;
        assert(out@ =~= s@.subrange(from as int, i as int));
    }
    assert(s@.subrange(0, n as int) =~= s@);
    out
}

/// Replaces every occurrence of `a` followed by `b` with `c`, left to right.
pub fn replace_pair_exec(s: &[char], a: char, b: char, c: char) -> (r: Vec<char>)
    ensures
        r@ == replace_pair(s@, a, b, c),
{
    let n = s.len();
    let mut out: Vec<char> = Vec::new();
    let mut i: usize = 0;
    assert(s@.skip(0) =~= s@);
    assert(out@ + replace_pair(s@, a, b, c) =~= replace_pair(s@, a, b, c));
    while i < n
        invariant
            i <= n == s@.len(),
            replace_pair(s@, a, b, c) == out@ + replace_pair(s@.skip(i as int), a, b, c),
        decreases n - i,
    {
        let ghost rest = s@.skip(i as int);
        if i + 1 < n && s[i] == a && s[i + 1] == b {
            assert(rest.skip(2) =~= s@.skip(i + 2));
            out.push(c);
            i = i + 2;
            assert(out@ + replace_pair(s@.skip(i as int), a, b, c) =~= out@.drop_last() + (seq![c]
                + replace_pair(rest.skip(2), a, b, c)));
        } else {
            assert(rest.drop_first() =~= s@.skip(i + 1));
            out.push(s[i]);
            i = i + 1;
            if i < n {
                assert(out@ + replace_pair(s@.skip(i as int), a, b, c) =~= out@.drop_last() + (seq![
                    rest[0],
                ] + replace_pair(rest.drop_first(), a, b, c)));
            } else {
                assert(rest =~= seq![rest[0]]);
                assert(s@.skip(i as int) =~= Seq::<char>::empty());
                assert(out@ + replace_pair(s@.skip(i as int), a, b, c) =~= out@.drop_last() + rest);
            }
        }
    }
    assert(s@.skip(n as int) =~= Seq::<char>::empty());
    assert(out@ + Seq::<char>::empty() =~= out@);
    out
}

/// The value of a C string literal's text (see `literal_value`).
pub fn literal_value_exec(s: &[char]) -> (r: Vec<char>)
    ensures
        r@ == literal_value(s@),
{
    let inner = strip_quotes_exec(s);
    let a = replace_pair_exec(inner.as_slice(), '\\', 'n', '\n');
    let b = replace_pair_exec(a.as_slice(), '\\', 't', '\t');
    let c = replace_pair_exec(b.as_slice(), '\\', 'r', '\r');
    let d = replace_pair_exec(c.as_slice(), '\\', '"', '"');
    replace_pair_exec(d.as_slice(), '\\', '\\', '\\')
}

/// Whether two texts are equal.
pub fn same_text(a: &str, b: &str) -> (r: bool)
    ensures
        r == (a@ == b@),
{
    let x = a.to_owned();
    let y = b.to_owned();
    x == y
}

} // verus!
