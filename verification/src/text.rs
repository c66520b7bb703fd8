//! Text: building messages, decimal numerals, and reading typed input.

use vstd::prelude::*;

verus! {

/// Appends one character to a string (std's `String::push`). The contract
/// claims that the string's characters are the old ones followed by `c`.
#[verifier::external_body]
pub(crate) fn push_char(s: &mut String, c: char)
    ensures
        final(s)@ == old(s)@.push(c),
{
    s.push(c)
}

/// The concatenation of two pieces of text.
pub fn concat2(a: &str, b: &str) -> (r: String)
    ensures
        r@ == a@ + b@,
{
    let mut s = String::from_str(a);
    s.append(b);
    s
}

/// The concatenation of three pieces of text.
pub fn concat3(a: &str, b: &str, c: &str) -> (r: String)
    ensures
        r@ == a@ + b@ + c@,
{
    let mut s = String::from_str(a);
    s.append(b);
    s.append(c);
    s
}

/// The concatenation of four pieces of text.
pub fn concat4(a: &str, b: &str, c: &str, d: &str) -> (r: String)
    ensures
        r@ == a@ + b@ + c@ + d@,
{
    let mut s = String::from_str(a);
    s.append(b);
    s.append(c);
    s.append(d);
    s
}

/// The decimal digit character for `d` (0 to 9).
pub open spec fn digit_char(d: nat) -> char
    recommends
        d < 10,
{
    (48 + d) as char
}

/// The decimal numeral of a natural number, without leading zeros.
pub open spec fn nat_text(n: nat) -> Seq<char>
    decreases n,
{
    if n < 10 {
        seq![digit_char(n)]
    } else {
        nat_text(n / 10).push(digit_char(n % 10))
    }
}

/// The decimal numeral of an integer, with a leading '-' when it is negative.
pub open spec fn int_text(i: int) -> Seq<char> {
    if i < 0 {
        seq!['-'] + nat_text((-i) as nat)
    } else {
        nat_text(i as nat)
    }
}

fn digit(d: u64) -> (c: char)
    requires
        d < 10,
    ensures
        c == digit_char(d as nat),
{
    let b: u8 = (d as u8) + 48u8;
    b as char
}

/// Appends the decimal numeral of `n`.
pub fn write_nat(n: u64, s: &mut String)
    ensures
        final(s)@ == old(s)@ + nat_text(n as nat),
    decreases n,
{
    if n >= 10 {
        write_nat(n / 10, s);
    }
    let c = digit(n % 10);
    push_char(s, c);
    proof {
        if n >= 10 {
            assert(nat_text(n as nat) == nat_text((n / 10) as nat).push(digit_char((n % 10) as nat)));
        }
        assert(final(s)@ =~= old(s)@ + nat_text(n as nat));
    }
}

/// The decimal numeral of an unsigned number.
pub fn usize_to_string(n: usize) -> (r: String)
    ensures
        r@ == nat_text(n as nat),
{
    let mut s = String::new();
    write_nat(n as u64, &mut s);
    assert(s@ =~= nat_text(n as nat));
    s
}

/// The decimal numeral of an integer, as `i64`'s `to_string` writes it.
pub fn int_to_string(i: i64) -> (r: String)
    ensures
        r@ == int_text(i as int),
{
    let mut s = String::new();
    if i < 0 {
        push_char(&mut s, '-');
        let m: u64 = ((-(i + 1)) as u64) + 1;
        write_nat(m, &mut s);
    } else {
        write_nat(i as u64, &mut s);
    }
    assert(s@ =~= int_text(i as int));
    s
}

/// `bool`'s `to_string`: "true" or "false".
pub open spec fn bool_text(b: bool) -> Seq<char> {
    if b {
        seq!['t', 'r', 'u', 'e']
    } else {
        seq!['f', 'a', 'l', 's', 'e']
    }
}

/// The text of a boolean, as `bool`'s `to_string` writes it.
pub fn bool_to_string(b: bool) -> (r: String)
    ensures
        r@ == bool_text(b),
{
    let mut s = String::new();
    if b {
        push_char(&mut s, 't');
        push_char(&mut s, 'r');
        push_char(&mut s, 'u');
        push_char(&mut s, 'e');
    } else {
        push_char(&mut s, 'f');
        push_char(&mut s, 'a');
        push_char(&mut s, 'l');
        push_char(&mut s, 's');
        push_char(&mut s, 'e');
    }
    assert(s@ =~= bool_text(b));
    s
}

/// The text of a single character.
pub fn char_to_string(c: char) -> (r: String)
    ensures
        r@ == seq![c],
{
    let mut s = String::new();
    push_char(&mut s, c);
    assert(s@ =~= seq![c]);
    s
}

/// The characters of a string, in order.
pub fn chars_of(s: &str) -> (r: Vec<char>)
    ensures
        r@ == s@,
{
    let n = s.unicode_len();
    let mut out: Vec<char> = Vec::new();
    let mut i: usize = 0;
    while i < n
        invariant
            n == s@.len(),
            i <= n,
            out@ == s@.subrange(0, i as int),
        decreases n - i,
    {
        let c = s.get_char(i);
        out.push(c);
        i = i + 1;
        assert(out@ =~= s@.subrange(0, i as int));
    }
    assert(out@ =~= s@);
    out
}

pub open spec fn is_digit(c: char) -> bool {
    '0' <= c <= '9'
}

/// The number that a string of decimal digits denotes.
pub open spec fn digits_value(s: Seq<char>) -> nat
    decreases s.len(),
{
    if s.len() == 0 {
        0
    } else {
        digits_value(s.drop_last()) * 10 + ((s.last() as int - 48) as nat)
    }
}

/// Every character of `s` is a decimal digit.
pub open spec fn all_digits(s: Seq<char>) -> bool {
    forall|k: int| 0 <= k < s.len() ==> is_digit(#[trigger] s[k])
}

/// `s` without its leading sign, if it has one.
pub open spec fn unsigned_part(s: Seq<char>) -> Seq<char> {
    if s.len() > 0 && (s[0] == '-' || s[0] == '+') {
        s.drop_first()
    } else {
        s
    }
}

/// What `str::parse::<i64>` gives: an optional sign, then one or more decimal
/// digits, whose value fits in `i64`.
pub open spec fn parse_int_text(s: Seq<char>) -> Option<i64> {
    let body = unsigned_part(s);
    if body.len() == 0 || !all_digits(body) {
        None
    } else {
        let v: int = if s[0] == '-' {
            -(digits_value(body) as int)
        } else {
            digits_value(body) as int
        };
        if i64::MIN <= v <= i64::MAX {
            Some(v as i64)
        } else {
            None
        }
    }
}

proof fn lemma_digits_prefix_le(s: Seq<char>, k: int)
    requires
        0 <= k <= s.len(),
        forall|j: int| 0 <= j < s.len() ==> is_digit(#[trigger] s[j]),
    ensures
        digits_value(s.subrange(0, k)) <= digits_value(s),
    decreases s.len() - k,
{
    if k == s.len() {
        assert(s.subrange(0, k) =~= s);
    } else {
        lemma_digits_prefix_le(s, k + 1);
        assert(s.subrange(0, k + 1).drop_last() =~= s.subrange(0, k));
    }
}

/// Reads an integer as `str::parse::<i64>` does.
pub fn parse_int(s: &str) -> (r: Option<i64>)
    ensures
        r == parse_int_text(s@),
{
    let cs = chars_of(s);
    let n = cs.len();
    let ghost t = s@;
    let mut start: usize = 0;
    let mut neg = false;
    if n > 0 && (cs[0] == '-' || cs[0] == '+') {
        neg = cs[0] == '-';
        start = 1;
    }
    let ghost body = unsigned_part(t);
    assert(body =~= t.subrange(start as int, n as int));
    if start == n {
        return None;
    }
    let limit: u64 = 0x8000_0000_0000_0000;
    let mut acc: u64 = 0;
    let mut i: usize = start;
    while i < n
        invariant
            cs@ == t,
            t == s@,
            body == unsigned_part(t),
            neg == (t.len() > 0 && t[0] == '-'),
            n == t.len(),
            start <= i <= n,
            body =~= t.subrange(start as int, n as int),
            forall|j: int| start <= j < i ==> is_digit(#[trigger] t[j]),
            acc as nat == digits_value(t.subrange(start as int, i as int)),
            acc <= limit,
            limit == 0x8000_0000_0000_0000u64,
        decreases n - i,
    {
        let c = cs[i];
        if !('0' <= c && c <= '9') {
            assert(t[i as int] == c);
            assert(body[i - start] == t[i as int]);
            assert(!is_digit(body[i - start]));
            assert(!all_digits(body));
            return None;
        }
        let d: u64 = (c as u64) - 48;
        assert(t.subrange(start as int, i + 1).drop_last() =~= t.subrange(start as int, i as int));
        if acc > (limit - d) / 10 {
            proof {
                if all_digits(body) {
                    lemma_digits_prefix_le(body, i + 1 - start);
                    assert(body.subrange(0, i + 1 - start) =~= t.subrange(start as int, i + 1));
                    assert(digits_value(t.subrange(start as int, i + 1)) == acc * 10 + d);
                    assert(acc * 10 + d > 0x8000_0000_0000_0000u64) by (nonlinear_arith)
                        requires
                            acc > (0x8000_0000_0000_0000u64 - d) / 10,
                            d < 10,
                    ;
                }
            }
            return None;
        }
        assert(acc * 10 + d <= limit) by (nonlinear_arith)
            requires
                acc <= (limit - d) / 10,
                d < 10,
        ;
        acc = acc * 10 + d;
        i = i + 1;
    }
    assert(t.subrange(start as int, n as int) =~= body);
    if neg {
        if acc == limit {
            Some(i64::MIN)
        } else {
            Some(-(acc as i64))
        }
    } else {
        if acc == limit {
            None
        } else {
            Some(acc as i64)
        }
    }
}

/// ASCII lower case of a character; other characters are kept.
pub open spec fn ascii_lower(c: char) -> char {
    if 'A' <= c <= 'Z' {
        ((c as int) + 32) as char
    } else {
        c
    }
}

/// `s` equals `word` (which is written in lower case) ignoring the case of ASCII letters.
pub open spec fn equals_ignoring_case(s: Seq<char>, word: Seq<char>) -> bool {
    &&& s.len() == word.len()
    &&& forall|i: int| 0 <= i < s.len() ==> ascii_lower(#[trigger] s[i]) == word[i]
}

fn lower(c: char) -> (r: char)
    ensures
        r == ascii_lower(c),
{
    if 'A' <= c && c <= 'Z' {
        let b: u32 = (c as u32) + 32;
        proof {
            assert(b == (c as int) + 32);
        }
        char_from_ascii_letter(b)
    } else {
        c
    }
}

fn char_from_ascii_letter(b: u32) -> (c: char)
    requires
        97 <= b <= 122,
    ensures
        c == b as char,
{
    let x: u8 = b as u8;
    x as char
}

fn matches_word(s: &Vec<char>, word: &Vec<char>) -> (r: bool)
    ensures
        r == equals_ignoring_case(s@, word@),
{
    if s.len() != word.len() {
        return false;
    }
    let mut i: usize = 0;
    while i < s.len()
        invariant
            s@.len() == word@.len(),
            i <= s@.len(),
            forall|j: int| 0 <= j < i ==> ascii_lower(#[trigger] s@[j]) == word@[j],
        decreases s@.len() - i,
    {
        if lower(s[i]) != word[i] {
            return false;
        }
        i = i + 1;
    }
    true
}

/// Reads a boolean the way the INPUT statement does: the text, in lower case,
/// is "true" or "false".
pub fn parse_bool(s: &str) -> (r: Option<bool>)
    ensures
        r == (if equals_ignoring_case(s@, bool_text(true)) {
            Some(true)
        } else if equals_ignoring_case(s@, bool_text(false)) {
            Some(false)
        } else {
            None
        }),
{
    let cs = chars_of(s);
    let t = chars_of(&bool_to_string(true));
    let f = chars_of(&bool_to_string(false));
    if matches_word(&cs, &t) {
        Some(true)
    } else if matches_word(&cs, &f) {
        Some(false)
    } else {
        None
    }
}

} // verus!

verus! {

/// The pieces of `s` between newline characters; there is one more piece
/// than there are newlines.
pub open spec fn newline_pieces(s: Seq<char>) -> Seq<Seq<char>>
    decreases s.len(),
{
    if s.len() == 0 {
        seq![Seq::<char>::empty()]
    } else {
        let p = newline_pieces(s.drop_last());
        if s.last() == '\n' {
            p.push(Seq::<char>::empty())
        } else {
            p.update(p.len() - 1, p.last().push(s.last()))
        }
    }
}

pub proof fn lemma_newline_pieces_len(s: Seq<char>)
    ensures
        newline_pieces(s).len() >= 1,
    decreases s.len(),
{
    if s.len() > 0 {
        lemma_newline_pieces_len(s.drop_last());
    }
}

/// A line without the carriage return that ends it, if it has one.
pub open spec fn strip_cr(l: Seq<char>) -> Seq<char> {
    if l.len() > 0 && l.last() == '\r' {
        l.drop_last()
    } else {
        l
    }
}

/// What `str::lines` gives: the text split at newlines, each line ended by a
/// newline losing a carriage return before it, and no empty last line.
pub open spec fn lines_of(s: Seq<char>) -> Seq<Seq<char>> {
    let p = newline_pieces(s);
    let body = p.subrange(0, p.len() - 1).map_values(|l: Seq<char>| strip_cr(l));
    if p.last().len() == 0 {
        body
    } else {
        body.push(p.last())
    }
}

fn string_of_chars(v: &Vec<char>, n: usize) -> (r: String)
    requires
        n <= v@.len(),
    ensures
        r@ == v@.subrange(0, n as int),
{
    let mut s = String::new();
    let mut i: usize = 0;
    while i < n
        invariant
            n <= v@.len(),
            i <= n,
            s@ == v@.subrange(0, i as int),
        decreases n - i,
    {
        push_char(&mut s, v[i]);
        i = i + 1;
        assert(s@ =~= v@.subrange(0, i as int));
    }
    s
}

fn stripped(v: &Vec<char>) -> (r: String)
    ensures
        r@ == strip_cr(v@),
{
    let n = v.len();
    if n > 0 && v[n - 1] == '\r' {
        let r = string_of_chars(v, n - 1);
        assert(r@ =~= strip_cr(v@));
        r
    } else {
        let r = string_of_chars(v, n);
        assert(r@ =~= strip_cr(v@));
        r
    }
}

/// The lines of a text, as `str::lines` gives them.
pub fn split_lines(s: &str) -> (r: Vec<String>)
    ensures
        r@.map_values(|l: String| l@) == lines_of(s@),
{
    let cs = chars_of(s);
    let mut out: Vec<String> = Vec::new();
    let mut cur: Vec<char> = Vec::new();
    let mut i: usize = 0;
    while i < cs.len()
        invariant
            cs@ == s@,
            i <= cs@.len(),
            ({
                let p = newline_pieces(s@.subrange(0, i as int));
                &&& p.len() >= 1
                &&& out@.map_values(|l: String| l@) == p.subrange(0, p.len() - 1).map_values(
                    |l: Seq<char>| strip_cr(l),
                )
                &&& cur@ == p.last()
            }),
        decreases cs@.len() - i,
    {
        let ghost pre = s@.subrange(0, i as int);
        let ghost p0 = newline_pieces(pre);
        let c = cs[i];
        proof {
            assert(s@.subrange(0, i + 1).drop_last() =~= pre);
            lemma_newline_pieces_len(pre);
        }
        if c == '\n' {
            let ghost old_cur = cur@;
            let line = stripped(&cur);
            let ghost old_out = out@;
            out.push(line);
            cur = Vec::new();
            proof {
                let p = newline_pieces(s@.subrange(0, i + 1));
                assert(p == p0.push(Seq::<char>::empty()));
                assert(p.subrange(0, p.len() - 1) =~= p0);
                let lhs = out@.map_values(|l: String| l@);
                let rhs = p0.map_values(|l: Seq<char>| strip_cr(l));
                assert(old_cur == p0.last());
                assert(line@ == strip_cr(p0.last()));
                assert(old_out.map_values(|l: String| l@).len() == p0.len() - 1);
                assert(lhs.len() == rhs.len());
                assert forall|j: int| 0 <= j < lhs.len() implies lhs[j] == rhs[j] by {
                    if j == old_out.len() {
                        assert(out@[j] == line);
                    } else {
                        assert(out@[j] == old_out[j]);
                        assert(old_out.map_values(|l: String| l@)[j] == p0.subrange(0, p0.len() - 1).map_values(|l: Seq<char>| strip_cr(l))[j]);
                    }
                }
                assert(out@.map_values(|l: String| l@) =~= p.subrange(0, p.len() - 1).map_values(
                    |l: Seq<char>| strip_cr(l),
                ));
                assert(cur@ =~= p.last());
            }
        } else {
            cur.push(c);
            proof {
                let p = newline_pieces(s@.subrange(0, i + 1));
                assert(p == p0.update(p0.len() - 1, p0.last().push(c)));
                assert(p.subrange(0, p.len() - 1) =~= p0.subrange(0, p0.len() - 1));
                assert(cur@ =~= p.last());
            }
        }
        i = i + 1;
    }
    proof {
        assert(s@.subrange(0, cs@.len() as int) =~= s@);
    }
    if cur.len() > 0 {
        let last = string_of_chars(&cur, cur.len());
        out.push(last);
        proof {
            let p = newline_pieces(s@);
            assert(last@ =~= p.last());
            assert(out@.map_values(|l: String| l@) =~= lines_of(s@));
        }
    }
    out
}

} // verus!

verus! {

/// Whether two texts are equal.
pub fn str_equal(a: &str, b: &str) -> (r: bool)
    ensures
        r == (a@ == b@),
{
    let x = chars_of(a);
    let y = chars_of(b);
    if x.len() != y.len() {
        return false;
    }
    let mut i: usize = 0;
    while i < x.len()
        invariant
            x@ == a@,
            y@ == b@,
            x@.len() == y@.len(),
            i <= x@.len(),
            forall|j: int| 0 <= j < i ==> x@[j] == y@[j],
        decreases x@.len() - i,
    {
        if x[i] != y[i] {
            return false;
        }
        i = i + 1;
    }
    assert(a@ =~= b@);
    true
}

/// Whether `a` comes before or equals `b` in the order of `String`:
/// character by character, a proper prefix first.
pub open spec fn text_le(a: Seq<char>, b: Seq<char>) -> bool
    decreases a.len(),
{
    if a.len() == 0 {
        true
    } else if b.len() == 0 {
        false
    } else if a[0] != b[0] {
        (a[0] as u32) < (b[0] as u32)
    } else {
        text_le(a.drop_first(), b.drop_first())
    }
}

/// `a <= b` on strings (see `text_le`).
pub fn string_le(a: &str, b: &str) -> (r: bool)
    ensures
        r == text_le(a@, b@),
{
    let x = chars_of(a);
    let y = chars_of(b);
    let mut i: usize = 0;
    assert(a@.subrange(0, a@.len() as int) =~= a@);
    assert(b@.subrange(0, b@.len() as int) =~= b@);
    while i < x.len() && i < y.len()
        invariant
            x@ == a@,
            y@ == b@,
            i <= x@.len(),
            i <= y@.len(),
            forall|j: int| 0 <= j < i ==> x@[j] == y@[j],
            text_le(a@, b@) == text_le(a@.subrange(i as int, a@.len() as int), b@.subrange(i as int, b@.len() as int)),
        decreases x@.len() - i,
    {
        let ghost sa = a@.subrange(i as int, a@.len() as int);
        let ghost sb = b@.subrange(i as int, b@.len() as int);
        if x[i] != y[i] {
            return (x[i] as u32) < (y[i] as u32);
        }
        assert(sa.drop_first() =~= a@.subrange(i + 1, a@.len() as int));
        assert(sb.drop_first() =~= b@.subrange(i + 1, b@.len() as int));
        i = i + 1;
    }
    i == x.len()
}

} // verus!
