//! Small string helpers with contracts over character sequences.
use vstd::prelude::*;
use vstd::string::StringExecFns;

verus! {

/// The concatenation of two strings.
pub fn join2(a: &str, b: &str) -> (r: String)
    ensures
        r@ == a@ + b@,
{
    let mut s = a.to_owned();
    s.append(b);
    s
}

/// The concatenation of three strings.
pub fn join3(a: &str, b: &str, c: &str) -> (r: String)
    ensures
        r@ == a@ + b@ + c@,
{
    let mut s = a.to_owned();
    s.append(b);
    s.append(c);
    s
}

/// Whether a character occurs in a sequence.
pub open spec fn has_char(s: Seq<char>, c: char) -> bool {
    exists|i: int| 0 <= i < s.len() && s[i] == c
}

/// `s` holds exactly one `/`, at position `i`.
pub open spec fn single_slash_at(s: Seq<char>, i: int) -> bool {
    &&& 0 <= i < s.len()
    &&& s[i] == '/'
    &&& forall|j: int| 0 <= j < s.len() && s[j] == '/' ==> j == i
}

/// The two parts of a text split at its only `/`, or None unless it holds
/// exactly one `/`.
pub open spec fn split_at_slash(s: Seq<char>) -> Option<(Seq<char>, Seq<char>)> {
    if exists|i: int| single_slash_at(s, i) {
        let i = choose|i: int| single_slash_at(s, i);
        Some((s.take(i), s.skip(i + 1)))
    } else {
        None
    }
}

/// Splits a text at its only `/`; None unless it holds exactly one.
pub fn split_slash(s: &str) -> (r: Option<(String, String)>)
    ensures
        match r {
            Some((a, b)) => split_at_slash(s@) == Some((a@, b@)),
            None => split_at_slash(s@) is None,
        },
{
    let n = s.unicode_len();
    let mut count: usize = 0;
    let mut pos: usize = 0;
    let mut i: usize = 0;
    while i < n
        invariant
            n == s@.len(),
            i <= n,
            count <= i,
            count == 0 ==> forall|j: int| 0 <= j < i ==> s@[j] != '/',
            count >= 1 ==> pos < i && s@[pos as int] == '/' && forall|j: int|
                0 <= j < pos ==> s@[j] != '/',
            count == 1 ==> forall|j: int| 0 <= j < i && s@[j] == '/' ==> j == pos,
            count >= 2 ==> exists|j: int| 0 <= j < i && j != pos && s@[j] == '/',
        decreases n - i,
    {
        let c = s.get_char(i);
        if c == '/' {
            if count == 0 {
                pos = i;
            }
            count = count + 1;
        }
        i = i + 1;
    }
    if count != 1 {
        proof {
            if exists|k: int| single_slash_at(s@, k) {
                let k = choose|k: int| single_slash_at(s@, k);
                if count >= 2 {
                    let j = choose|j: int| 0 <= j < n && j != pos && s@[j] == '/';
                    assert(j == k);
                    assert(pos == k);
                }
            }
        }
        return None;
    }
    assert(single_slash_at(s@, pos as int));
    assert(split_at_slash(s@) == Some((s@.take(pos as int), s@.skip(pos + 1)))) by {
        let k = choose|k: int| single_slash_at(s@, k);
        assert(k == pos);
    }
    let a = s.substring_char(0, pos).to_owned();
    let b = s.substring_char(pos + 1, n).to_owned();
    assert(a@ =~= s@.take(pos as int));
    assert(b@ =~= s@.skip(pos + 1));
    Some((a, b))
}

/// Splitting `a/b` at its slash gives back `a` and `b` when neither holds a `/`.
pub proof fn lemma_split_joined(a: Seq<char>, b: Seq<char>)
    requires
        !has_char(a, '/'),
        !has_char(b, '/'),
    ensures
        split_at_slash(a + seq!['/'] + b) == Some((a, b)),
{
    let s = a + seq!['/'] + b;
    let i = a.len() as int;
    assert forall|j: int| 0 <= j < s.len() && s[j] == '/' implies j == i by {
        if j < i {
            assert(a[j] == s[j]);
        } else if j > i {
            assert(b[j - i - 1] == s[j]);
        }
    }
    assert(single_slash_at(s, i));
    let k = choose|k: int| single_slash_at(s, k);
    assert(k == i);
    assert(s.take(i) =~= a);
    assert(s.skip(i + 1) =~= b);
}


/// The character of a decimal digit.
pub open spec fn digit_char(d: nat) -> char {
    if d == 0 {
        '0'
    } else if d == 1 {
        '1'
    } else if d == 2 {
        '2'
    } else if d == 3 {
        '3'
    } else if d == 4 {
        '4'
    } else if d == 5 {
        '5'
    } else if d == 6 {
        '6'
    } else if d == 7 {
        '7'
    } else if d == 8 {
        '8'
    } else {
        '9'
    }
}

/// The decimal text of a natural number, without leading zeros.
pub open spec fn decimal(n: nat) -> Seq<char>
    decreases n,
{
    if n < 10 {
        seq![digit_char(n)]
    } else {
        decimal(n / 10).push(digit_char(n % 10))
    }
}

fn digit_str(d: u64) -> (r: &'static str)
    requires
        d < 10,
    ensures
        r@ == seq![digit_char(d as nat)],
{
    proof {
        reveal_strlit("0");
        reveal_strlit("1");
        reveal_strlit("2");
        reveal_strlit("3");
        reveal_strlit("4");
        reveal_strlit("5");
        reveal_strlit("6");
        reveal_strlit("7");
        reveal_strlit("8");
        reveal_strlit("9");
    }
    let r = if d == 0 {
        "0"
    } else if d == 1 {
        "1"
    } else if d == 2 {
        "2"
    } else if d == 3 {
        "3"
    } else if d == 4 {
        "4"
    } else if d == 5 {
        "5"
    } else if d == 6 {
        "6"
    } else if d == 7 {
        "7"
    } else if d == 8 {
        "8"
    } else {
        "9"
    };
    assert(r@ =~= seq![digit_char(d as nat)]);
    r
}

/// The decimal text of a number.
pub fn decimal_text(n: u64) -> (r: String)
    ensures
        r@ == decimal(n as nat),
    decreases n,
{
    if n < 10 {
        digit_str(n).to_owned()
    } else {
        let mut s = decimal_text(n / 10);
        s.append(digit_str(n % 10));
        assert(s@ =~= decimal(n as nat));
        s
    }
}

/// Whether a character has the Unicode White_Space property.
pub open spec fn is_white_space(c: char) -> bool {
    ||| ('\u{9}' <= c && c <= '\u{d}')
    ||| c == ' '
    ||| c == '\u{85}'
    ||| c == '\u{a0}'
    ||| c == '\u{1680}'
    ||| ('\u{2000}' <= c && c <= '\u{200a}')
    ||| c == '\u{2028}'
    ||| c == '\u{2029}'
    ||| c == '\u{202f}'
    ||| c == '\u{205f}'
    ||| c == '\u{3000}'
}

/// The text without its leading white space.
pub open spec fn trim_start_spec(s: Seq<char>) -> Seq<char>
    decreases s.len(),
{
    if s.len() > 0 && is_white_space(s[0]) {
        trim_start_spec(s.drop_first())
    } else {
        s
    }
}

/// The text without its trailing white space.
pub open spec fn trim_end_spec(s: Seq<char>) -> Seq<char>
    decreases s.len(),
{
    if s.len() > 0 && is_white_space(s.last()) {
        trim_end_spec(s.drop_last())
    } else {
        s
    }
}

/// The text without leading and trailing white space.
pub open spec fn trim_spec(s: Seq<char>) -> Seq<char> {
    trim_end_spec(trim_start_spec(s))
}

/// `str::trim`: the text with leading and trailing white space (the Unicode
/// White_Space property) removed. The contract states exactly that, as the
/// standard library documents it.
#[verifier::external_body]
pub(crate) fn trim_text(s: &str) -> (r: String)
    ensures
        r@ == trim_spec(s@),
{
    s.trim().to_string()
}

/// Copies a list of strings.
pub fn copy_strings(v: &Vec<String>) -> (r: Vec<String>)
    ensures
        r@ == v@,
{
    let mut r: Vec<String> = Vec::new();
    let mut i: usize = 0;
    while i < v.len()
        invariant
            i <= v@.len(),
            r@ == v@.take(i as int),
        decreases v@.len() - i,
    {
        r.push(v[i].clone());
        i = i + 1;
        assert(r@ =~= v@.take(i as int));
    }
    assert(v@.take(v@.len() as int) =~= v@);
    r
}

/// The texts of a list of strings.
pub open spec fn string_views(v: Seq<String>) -> Seq<Seq<char>> {
    v.map_values(|s: String| s@)
}

/// The parts of a text between the occurrences of a separator, as
/// `str::split` gives them: one more part than separators, possibly empty.
pub open spec fn split_spec(s: Seq<char>, sep: char) -> Seq<Seq<char>>
    decreases s.len(),
{
    if s.len() == 0 {
        seq![Seq::<char>::empty()]
    } else {
        let rest = split_spec(s.drop_last(), sep);
        if s.last() == sep {
            rest.push(Seq::<char>::empty())
        } else {
            rest.update(rest.len() - 1, rest.last().push(s.last()))
        }
    }
}

/// Splitting never gives an empty list of parts.
pub proof fn lemma_split_nonempty(s: Seq<char>, sep: char)
    ensures
        split_spec(s, sep).len() >= 1,
    decreases s.len(),
{
    if s.len() > 0 {
        lemma_split_nonempty(s.drop_last(), sep);
    }
}

/// Splits a text at every occurrence of a separator.
pub fn split_text(s: &str, sep: char) -> (r: Vec<String>)
    ensures
        string_views(r@) == split_spec(s@, sep),
{
    let n = s.unicode_len();
    let mut parts: Vec<String> = Vec::new();
    let mut current = String::new();
    let mut i: usize = 0;
    proof {
        reveal_strlit("");
        assert(s@.take(0) =~= Seq::<char>::empty());
    }
    while i < n
        invariant
            n == s@.len(),
            i <= n,
            string_views(parts@).push(current@) == split_spec(s@.take(i as int), sep),
        decreases n - i,
    {
        proof {
            lemma_split_nonempty(s@.take(i as int), sep);
        }
        let c = s.get_char(i);
        assert(s@.take(i + 1).drop_last() =~= s@.take(i as int));
        if c == sep {
            let ghost before = string_views(parts@);
            parts.push(current);
            current = String::new();
            proof {
                reveal_strlit("");
                assert(string_views(parts@) =~= before.push(string_views(parts@).last()));
            }
        } else {
            let ghost before = current@;
            let one = s.substring_char(i, i + 1);
            assert(one@ =~= seq![c]);
            current.append(one);
            assert(current@ =~= before.push(c));
        }
        proof {
            let prev = split_spec(s@.take(i as int), sep);
            if c == sep {
                assert(string_views(parts@).push(current@) =~= prev.push(Seq::<char>::empty()));
            } else {
                assert(string_views(parts@).push(current@) =~= prev.update(
                    prev.len() - 1,
                    prev.last().push(c),
                ));
            }
        }
        i = i + 1;
    }
    assert(s@.take(n as int) =~= s@);
    let ghost before = string_views(parts@);
    parts.push(current);
    assert(string_views(parts@) =~= before.push(current@));
    parts
}

/// Whether a string is exactly the given text.
pub fn text_is(a: &String, text: &str) -> (r: bool)
    ensures
        r == (a@ == text@),
{
    *a == text.to_owned()
}

/// A text holding the separator splits into at least two parts.
pub proof fn lemma_split_has_sep(s: Seq<char>, sep: char)
    requires
        has_char(s, sep),
    ensures
        split_spec(s, sep).len() >= 2,
    decreases s.len(),
{
    let d = s.drop_last();
    lemma_split_nonempty(d, sep);
    if s.last() != sep {
        let i = choose|i: int| 0 <= i < s.len() && s[i] == sep;
        assert(d[i] == sep);
        lemma_split_has_sep(d, sep);
    }
}

/// The words of a text: its maximal runs of characters that are not white
/// space, in order, as `str::split_whitespace` gives them.
pub open spec fn words_spec(s: Seq<char>) -> Seq<Seq<char>>
    decreases s.len(),
{
    if s.len() == 0 {
        Seq::empty()
    } else {
        let rest = words_spec(s.drop_last());
        let c = s.last();
        if is_white_space(c) {
            rest
        } else if s.len() >= 2 && !is_white_space(s[s.len() - 2]) {
            rest.update(rest.len() - 1, rest.last().push(c))
        } else {
            rest.push(seq![c])
        }
    }
}

/// A text ending in a non-space character has at least one word.
proof fn lemma_words_nonempty(s: Seq<char>)
    requires
        s.len() > 0,
        !is_white_space(s.last()),
    ensures
        words_spec(s).len() >= 1,
    decreases s.len(),
{
    let d = s.drop_last();
    if s.len() >= 2 && !is_white_space(s[s.len() - 2]) {
        assert(d.last() == s[s.len() - 2]);
        lemma_words_nonempty(d);
    }
}

/// Splits a text into its words.
pub fn split_words(s: &str) -> (r: Vec<String>)
    ensures
        string_views(r@) == words_spec(s@),
{
    let n = s.unicode_len();
    let mut words: Vec<String> = Vec::new();
    let mut current = String::new();
    let mut in_word = false;
    let mut i: usize = 0;
    proof {
        reveal_strlit("");
        assert(s@.take(0) =~= Seq::<char>::empty());
    }
    while i < n
        invariant
            n == s@.len(),
            i <= n,
            in_word == (i > 0 && !is_white_space(s@[i - 1])),
            !in_word ==> string_views(words@) == words_spec(s@.take(i as int)) && current@.len() == 0,
            in_word ==> string_views(words@).push(current@) == words_spec(s@.take(i as int)),
        decreases n - i,
    {
        let c = s.get_char(i);
        let ws = is_space_char(c);
        let ghost t = s@.take(i + 1);
        assert(t.drop_last() =~= s@.take(i as int));
        assert(t.last() == c);
        if ws {
            if in_word {
                let ghost before = string_views(words@);
                words.push(current);
                current = String::new();
                proof {
                    reveal_strlit("");
                    assert(string_views(words@) =~= before.push(string_views(words@).last()));
                }
            }
            in_word = false;
        } else {
            let ghost before = current@;
            let one = s.substring_char(i, i + 1);
            assert(one@ =~= seq![c]);
            current.append(one);
            assert(current@ =~= before.push(c));
            proof {
                if i > 0 {
                    assert(t[t.len() - 2] == s@[i - 1]);
                }
                let prev = words_spec(s@.take(i as int));
                if in_word {
                    lemma_words_nonempty(s@.take(i as int));
                    assert(string_views(words@).push(current@) =~= prev.update(
                        prev.len() - 1,
                        prev.last().push(c),
                    ));
                } else {
                    assert(string_views(words@).push(current@) =~= prev.push(seq![c]));
                }
            }
            in_word = true;
        }
        i = i + 1;
    }
    assert(s@.take(n as int) =~= s@);
    if in_word {
        let ghost before = string_views(words@);
        words.push(current);
        assert(string_views(words@) =~= before.push(current@));
    }
    words
}

/// Whether a character is white space.
pub fn is_space_char(c: char) -> (r: bool)
    ensures
        r == is_white_space(c),
{
    ('\u{9}' <= c && c <= '\u{d}') || c == ' ' || c == '\u{85}' || c == '\u{a0}' || c == '\u{1680}'
        || ('\u{2000}' <= c && c <= '\u{200a}') || c == '\u{2028}' || c == '\u{2029}' || c
        == '\u{202f}' || c == '\u{205f}' || c == '\u{3000}'
}

/// The value of a decimal numeral.
pub open spec fn numeral_value(s: Seq<char>) -> int
    decreases s.len(),
{
    if s.len() == 0 {
        0
    } else {
        numeral_value(s.drop_last()) * 10 + (s.last() as int - '0' as int)
    }
}

/// Whether every character is a decimal digit.
pub open spec fn all_digits(s: Seq<char>) -> bool {
    forall|i: int| 0 <= i < s.len() ==> '0' <= #[trigger] s[i] && s[i] <= '9'
}

/// The number a text denotes as `str::parse::<usize>` reads it: an optional
/// `+` and then one or more decimal digits, within range.
pub open spec fn parse_usize_spec(s: Seq<char>) -> Option<usize> {
    let digits = if s.len() > 0 && s[0] == '+' { s.drop_first() } else { s };
    if digits.len() > 0 && all_digits(digits) && numeral_value(digits) <= usize::MAX {
        Some(numeral_value(digits) as usize)
    } else {
        None
    }
}

/// Reads a decimal number the way `str::parse::<usize>` does.
pub fn parse_usize(s: &str) -> (r: Option<usize>)
    ensures
        r == parse_usize_spec(s@),
{
    let n = s.unicode_len();
    let mut start: usize = 0;
    if n > 0 && s.get_char(0) == '+' {
        start = 1;
    }
    let ghost digits = if s@.len() > 0 && s@[0] == '+' { s@.drop_first() } else { s@ };
    assert(digits =~= s@.skip(start as int));
    if start == n {
        return None;
    }
    let mut value: usize = 0;
    let mut i: usize = start;
    while i < n
        invariant
            n == s@.len(),
            start <= i <= n,
            digits == s@.skip(start as int),
            digits == (if s@.len() > 0 && s@[0] == '+' { s@.drop_first() } else { s@ }),
            digits.len() > 0,
            all_digits(s@.subrange(start as int, i as int)),
            value == numeral_value(s@.subrange(start as int, i as int)),
        decreases n - i,
    {
        let c = s.get_char(i);
        let ghost part = s@.subrange(start as int, i + 1);
        assert(part.drop_last() =~= s@.subrange(start as int, i as int));
        if c < '0' || c > '9' {
            assert(digits[i - start] == c);
            assert(!('0' <= digits[i - start] && digits[i - start] <= '9'));
            return None;
        }
        let d = (c as u32 - '0' as u32) as usize;
        assert(numeral_value(part) == value * 10 + d);
        if value > (usize::MAX - d) / 10 {
            proof {
                assert(numeral_value(part) > usize::MAX) by (nonlinear_arith)
                    requires
                        value > (usize::MAX - d) / 10,
                        numeral_value(part) == value * 10 + d,
                        d <= 9,
                ;
                assert(part =~= digits.take(i + 1 - start));
                if all_digits(digits) {
                    lemma_numeral_grows(digits, i + 1 - start);
                }
            }
            return None;
        }
        value = value * 10 + d;
        i = i + 1;
    }
    assert(s@.subrange(start as int, n as int) =~= digits);
    Some(value)
}

/// The number a text denotes as `str::parse::<i64>` reads it: an optional
/// `+` or `-` and then one or more decimal digits, within range.
pub open spec fn parse_i64_spec(s: Seq<char>) -> Option<i64> {
    let signed = s.len() > 0 && (s[0] == '+' || s[0] == '-');
    let digits = if signed { s.drop_first() } else { s };
    let v = if s.len() > 0 && s[0] == '-' { -numeral_value(digits) } else { numeral_value(digits) };
    if digits.len() > 0 && all_digits(digits) && i64::MIN <= v <= i64::MAX {
        Some(v as i64)
    } else {
        None
    }
}

/// Reads a decimal number the way `str::parse::<i64>` does.
pub fn parse_i64(s: &str) -> (r: Option<i64>)
    ensures
        r == parse_i64_spec(s@),
{
    let n = s.unicode_len();
    let mut start: usize = 0;
    let mut negative = false;
    if n > 0 && (s.get_char(0) == '+' || s.get_char(0) == '-') {
        start = 1;
        negative = s.get_char(0) == '-';
    }
    let ghost signed = s@.len() > 0 && (s@[0] == '+' || s@[0] == '-');
    let ghost digits = if signed { s@.drop_first() } else { s@ };
    assert(digits =~= s@.skip(start as int));
    if start == n {
        return None;
    }
    let limit: u64 = 0x8000_0000_0000_0000;
    let mut value: u64 = 0;
    let mut i: usize = start;
    while i < n
        invariant
            n == s@.len(),
            start <= i <= n,
            digits == s@.skip(start as int),
            signed == (s@.len() > 0 && (s@[0] == '+' || s@[0] == '-')),
            digits == (if signed { s@.drop_first() } else { s@ }),
            digits.len() > 0,
            limit == 0x8000_0000_0000_0000u64,
            all_digits(s@.subrange(start as int, i as int)),
            value == numeral_value(s@.subrange(start as int, i as int)),
            value <= limit,
        decreases n - i,
    {
        let c = s.get_char(i);
        let ghost part = s@.subrange(start as int, i + 1);
        assert(part.drop_last() =~= s@.subrange(start as int, i as int));
        if c < '0' || c > '9' {
            assert(digits[i - start] == c);
            assert(!('0' <= digits[i - start] && digits[i - start] <= '9'));
            return None;
        }
        let d = (c as u32 - '0' as u32) as u64;
        assert(numeral_value(part) == value * 10 + d);
        if value > (limit - d) / 10 {
            proof {
                assert(numeral_value(part) > limit) by (nonlinear_arith)
                    requires
                        value > (limit - d) / 10,
                        numeral_value(part) == value * 10 + d,
                        d <= 9,
                ;
                assert(part =~= digits.take(i + 1 - start));
                if all_digits(digits) {
                    lemma_numeral_grows(digits, i + 1 - start);
                }
            }
            return None;
        }
        value = value * 10 + d;
        i = i + 1;
    }
    assert(s@.subrange(start as int, n as int) =~= digits);
    assert(negative == (s@.len() > 0 && s@[0] == '-'));
    if negative {
        if value == limit {
            Some(i64::MIN)
        } else {
            Some(-(value as i64))
        }
    } else {
        if value > 0x7fff_ffff_ffff_ffffu64 {
            None
        } else {
            Some(value as i64)
        }
    }
}

/// A character's code with ASCII capitals read as small letters.
pub open spec fn ascii_fold(c: char) -> int {
    if 'A' <= c && c <= 'Z' {
        c as int + 32
    } else {
        c as int
    }
}

/// Whether two texts are equal once ASCII letters are read without case.
pub open spec fn same_ignoring_ascii_case(a: Seq<char>, b: Seq<char>) -> bool {
    &&& a.len() == b.len()
    &&& forall|i: int| 0 <= i < a.len() ==> ascii_fold(#[trigger] a[i]) == ascii_fold(b[i])
}

/// Compares two texts as `str::eq_ignore_ascii_case` does.
pub fn eq_ignore_ascii_case(a: &str, b: &str) -> (r: bool)
    ensures
        r == same_ignoring_ascii_case(a@, b@),
{
    let n = a.unicode_len();
    if n != b.unicode_len() {
        return false;
    }
    let mut i: usize = 0;
    while i < n
        invariant
            n == a@.len(),
            n == b@.len(),
            i <= n,
            forall|j: int| 0 <= j < i ==> ascii_fold(#[trigger] a@[j]) == ascii_fold(b@[j]),
        decreases n - i,
    {
        let x = a.get_char(i);
        let y = b.get_char(i);
        let fx: u32 = if 'A' <= x && x <= 'Z' { x as u32 + 32 } else { x as u32 };
        let fy: u32 = if 'A' <= y && y <= 'Z' { y as u32 + 32 } else { y as u32 };
        if fx != fy {
            assert(ascii_fold(a@[i as int]) != ascii_fold(b@[i as int]));
            return false;
        }
        i = i + 1;
    }
    true
}

/// A numeral is worth at least any of its prefixes.
proof fn lemma_numeral_grows(s: Seq<char>, k: int)
    requires
        0 <= k <= s.len(),
        all_digits(s),
    ensures
        numeral_value(s.take(k)) <= numeral_value(s),
        numeral_value(s.take(k)) >= 0,
    decreases s.len() - k,
{
    if k < s.len() {
        lemma_numeral_grows(s, k + 1);
        assert(s.take(k + 1).drop_last() =~= s.take(k));
        lemma_numeral_nonneg(s.take(k));
    } else {
        assert(s.take(k) =~= s);
        lemma_numeral_nonneg(s);
    }
}

proof fn lemma_numeral_nonneg(s: Seq<char>)
    requires
        all_digits(s),
    ensures
        numeral_value(s) >= 0,
    decreases s.len(),
{
    if s.len() > 0 {
        lemma_numeral_nonneg(s.drop_last());
    }
}

/// What trimming leaves at the end is not white space.
proof fn lemma_trim_end_last(u: Seq<char>)
    ensures
        trim_end_spec(u).len() > 0 ==> !is_white_space(trim_end_spec(u).last()),
    decreases u.len(),
{
    if u.len() > 0 && is_white_space(u.last()) {
        lemma_trim_end_last(u.drop_last());
    }
}

/// A trimmed text that is not empty ends in a character that is not white
/// space.
pub proof fn lemma_trim_ends(s: Seq<char>)
    requires
        trim_spec(s).len() > 0,
    ensures
        !is_white_space(trim_spec(s).last()),
{
    lemma_trim_end_last(trim_start_spec(s));
}

/// A text ending in a character that is not white space has a word.
pub proof fn lemma_words_of_nonblank(t: Seq<char>)
    requires
        t.len() > 0,
        !is_white_space(t.last()),
    ensures
        words_spec(t).len() > 0,
{
    lemma_words_nonempty(t);
}

/// `i` is where the first `c` of a text stands.
pub open spec fn first_char_at(s: Seq<char>, c: char, i: int) -> bool {
    &&& 0 <= i < s.len()
    &&& s[i] == c
    &&& forall|j: int| 0 <= j < i ==> s[j] != c
}

/// A text split at its first `c`, which neither part keeps; None without
/// one.
pub open spec fn split_first(s: Seq<char>, c: char) -> Option<(Seq<char>, Seq<char>)> {
    if exists|i: int| first_char_at(s, c, i) {
        let i = choose|i: int| first_char_at(s, c, i);
        Some((s.take(i), s.skip(i + 1)))
    } else {
        None
    }
}

/// Splits a text at its first `c`, as `str::split_once` does with a char.
pub fn split_at_char(text: &str, c: char) -> (r: Option<(String, String)>)
    ensures
        match r {
            Some((a, b)) => split_first(text@, c) == Some((a@, b@)),
            None => split_first(text@, c) is None,
        },
{
    let n = text.unicode_len();
    let mut i: usize = 0;
    while i < n
        invariant
            n == text@.len(),
            i <= n,
            forall|j: int| 0 <= j < i ==> text@[j] != c,
        decreases n - i,
    {
        if text.get_char(i) == c {
            let a = text.substring_char(0, i).to_owned();
            let b = text.substring_char(i + 1, n).to_owned();
            assert(a@ =~= text@.take(i as int));
            assert(b@ =~= text@.skip(i + 1));
            assert(first_char_at(text@, c, i as int));
            proof {
                let k = choose|k: int| first_char_at(text@, c, k);
                assert(k == i);
            }
            return Some((a, b));
        }
        i = i + 1;
    }
    None
}

/// `i` is where the first `a` directly followed by `b` stands.
pub open spec fn first_pair_at(s: Seq<char>, a: char, b: char, i: int) -> bool {
    &&& 0 <= i && i + 1 < s.len()
    &&& s[i] == a && s[i + 1] == b
    &&& forall|j: int| 0 <= j < i ==> !(#[trigger] s[j] == a && s[j + 1] == b)
}

/// A text split at its first two-character separator `ab`, which neither
/// part keeps; None without one.
pub open spec fn split_first_pair(s: Seq<char>, a: char, b: char) -> Option<(Seq<char>, Seq<char>)> {
    if exists|i: int| first_pair_at(s, a, b, i) {
        let i = choose|i: int| first_pair_at(s, a, b, i);
        Some((s.take(i), s.skip(i + 2)))
    } else {
        None
    }
}

/// Splits a text at its first two-character separator, as `str::split_once`
/// does with a two-character pattern.
pub fn split_at_pair(text: &str, a: char, b: char) -> (r: Option<(String, String)>)
    ensures
        match r {
            Some((x, y)) => split_first_pair(text@, a, b) == Some((x@, y@)),
            None => split_first_pair(text@, a, b) is None,
        },
{
    let n = text.unicode_len();
    if n < 2 {
        proof {
            if exists|k: int| first_pair_at(text@, a, b, k) {
                let k = choose|k: int| first_pair_at(text@, a, b, k);
                assert(k + 1 < n);
            }
        }
        return None;
    }
    let last = n - 1;
    let mut i: usize = 0;
    while i < last
        invariant
            n == text@.len(),
            last + 1 == n,
            i <= n,
            forall|j: int| 0 <= j < i && j + 1 < n ==> !(#[trigger] text@[j] == a && text@[j + 1] == b),
        decreases n - i,
    {
        if text.get_char(i) == a && text.get_char(i + 1) == b {
            let x = text.substring_char(0, i).to_owned();
            let y = text.substring_char(i + 2, n).to_owned();
            assert(x@ =~= text@.take(i as int));
            assert(y@ =~= text@.skip(i + 2));
            assert(first_pair_at(text@, a, b, i as int));
            proof {
                let k = choose|k: int| first_pair_at(text@, a, b, k);
                if k < i {
                    assert(!(text@[k] == a && text@[k + 1] == b));
                }
                if i < k {
                    assert(!(text@[i as int] == a && text@[i + 1] == b));
                }
            }
            return Some((x, y));
        }
        i = i + 1;
    }
    proof {
        if exists|k: int| first_pair_at(text@, a, b, k) {
            let k = choose|k: int| first_pair_at(text@, a, b, k);
            assert(k + 1 < n);
        }
    }
    None
}

/// A `key=value` text split at its first `=`; None without one.
pub open spec fn assignment_parts(s: Seq<char>) -> Option<(Seq<char>, Seq<char>)> {
    split_first(s, '=')
}

/// Splits a `key=value` text at its first `=`.
pub fn split_assignment(text: &str) -> (r: Option<(String, String)>)
    ensures
        match r {
            Some((k, v)) => assignment_parts(text@) == Some((k@, v@)),
            None => assignment_parts(text@) is None,
        },
{
    split_at_char(text, '=')
}

/// Whether a text begins with a prefix.
pub open spec fn starts_with_spec(s: Seq<char>, prefix: Seq<char>) -> bool {
    s.len() >= prefix.len() && s.take(prefix.len() as int) == prefix
}

/// Whether a text begins with a prefix.
pub fn starts_with(s: &str, prefix: &str) -> (r: bool)
    ensures
        r == starts_with_spec(s@, prefix@),
{
    let n = s.unicode_len();
    let m = prefix.unicode_len();
    if n < m {
        return false;
    }
    let head = s.substring_char(0, m).to_owned();
    let p = prefix.to_owned();
    assert(head@ =~= s@.take(m as int));
    head == p
}

/// Whether a text ends with a suffix.
pub open spec fn ends_with_spec(s: Seq<char>, suffix: Seq<char>) -> bool {
    s.len() >= suffix.len() && s.skip(s.len() - suffix.len()) == suffix
}

/// Whether a text ends with a suffix.
pub fn ends_with(s: &str, suffix: &str) -> (r: bool)
    ensures
        r == ends_with_spec(s@, suffix@),
{
    let n = s.unicode_len();
    let m = suffix.unicode_len();
    if n < m {
        return false;
    }
    let tail = s.substring_char(n - m, n).to_owned();
    let p = suffix.to_owned();
    assert(tail@ =~= s@.skip(n - m));
    tail == p
}

/// The text with every repetition of a non-empty suffix taken off its end.
pub open spec fn trim_suffix_all(s: Seq<char>, suffix: Seq<char>) -> Seq<char>
    decreases s.len(),
{
    if suffix.len() > 0 && ends_with_spec(s, suffix) {
        trim_suffix_all(s.take(s.len() - suffix.len()), suffix)
    } else {
        s
    }
}

/// Takes every repetition of a non-empty suffix off the end of a text, as
/// `str::trim_end_matches` does with a text pattern.
pub fn trim_end_matches(s: &str, suffix: &str) -> (r: String)
    requires
        suffix@.len() > 0,
    ensures
        r@ == trim_suffix_all(s@, suffix@),
{
    let mut t = s.to_owned();
    let m = suffix.unicode_len();
    while ends_with(t.as_str(), suffix)
        invariant
            m == suffix@.len(),
            m > 0,
            trim_suffix_all(t@, suffix@) == trim_suffix_all(s@, suffix@),
        decreases t@.len(),
    {
        let n = t.as_str().unicode_len();
        let shorter = t.as_str().substring_char(0, n - m).to_owned();
        assert(shorter@ =~= t@.take(t@.len() - m));
        t = shorter;
    }
    t
}

} // verus!
