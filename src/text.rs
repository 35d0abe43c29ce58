//! Decimal text for integers, and whitespace-separated words.
use vstd::prelude::*;

verus! {

/// The character of a decimal digit `d` (0 to 9).
pub open spec fn digit_char(d: int) -> char {
    ((d + '0' as int) as u32) as char
}

/// Decimal digits of a natural number, most significant first, no leading zeros.
pub open spec fn nat_text(n: nat) -> Seq<char>
    decreases n,
{
    if n < 10 {
        seq![digit_char(n as int)]
    } else {
        nat_text(n / 10).push(digit_char((n % 10) as int))
    }
}

/// Decimal text of an integer, with a leading `-` when negative.
pub open spec fn int_text(i: int) -> Seq<char> {
    if i < 0 {
        seq!['-'] + nat_text((-i) as nat)
    } else {
        nat_text(i as nat)
    }
}

fn digit_str(d: u64) -> (r: &'static str)
    requires
        d < 10,
    ensures
        r@ == seq![digit_char(d as int)],
{
    proof {
        reveal_strlit("0");
        reveal_strlit("1");
        reveal_strlit("2");
        reveal_strlit("3");
        reveal_strlit("4");
        reveal_strlit("5");
        reveal_strlit("6");
        reveal_strlit("7");
        reveal_strlit("8");
        reveal_strlit("9");
    }
    let r = if d == 0 {
        "0"
    } else if d == 1 {
        "1"
    } else if d == 2 {
        "2"
    } else if d == 3 {
        "3"
    } else if d == 4 {
        "4"
    } else if d == 5 {
        "5"
    } else if d == 6 {
        "6"
    } else if d == 7 {
        "7"
    } else if d == 8 {
        "8"
    } else {
        "9"
    };
    assert(r@ =~= seq![digit_char(d as int)]);
    r
}

fn nat_to_text(n: u64) -> (r: String)
    ensures
        r@ == nat_text(n as nat),
    decreases n,
{
    if n < 10 {
        String::from_str(digit_str(n))
    } else {
        let mut s = nat_to_text(n / 10);
        s.append(digit_str(n % 10));
        proof {
            assert(s@ =~= nat_text(n as nat));
        }
        s
    }
}

/// Decimal text of `v`, as `Display` writes an `i32`.
pub fn format_i32(v: i32) -> (r: String)
    ensures
        r@ == int_text(v as int),
{
    if v < 0 {
        let m: i64 = -(v as i64);
        let digits = nat_to_text(m as u64);
        proof {
            reveal_strlit("-");
        }
        let r = String::from_str("-").concat(digits.as_str());
        proof {
            assert(r@ =~= int_text(v as int));
        }
        r
    } else {
        nat_to_text(v as u64)
    }
}


/// Whether `c` is an ASCII decimal digit.
pub open spec fn is_digit(c: char) -> bool {
    '0' <= c && c <= '9'
}

/// Value of a run of decimal digits, most significant first.
pub open spec fn digits_value(s: Seq<char>) -> int
    decreases s.len(),
{
    if s.len() == 0 {
        0
    } else {
        digits_value(s.drop_last()) * 10 + (s.last() as int - '0' as int)
    }
}

/// Whether `s` is a nonempty run of decimal digits.
pub open spec fn all_digits(s: Seq<char>) -> bool {
    s.len() > 0 && forall|i: int| 0 <= i < s.len() ==> is_digit(#[trigger] s[i])
}

/// The integer written in `s`: an optional `+` or `-`, then one or more decimal
/// digits, and nothing else.
pub open spec fn int_value(s: Seq<char>) -> Option<int> {
    if s.len() > 0 && (s[0] == '-' || s[0] == '+') {
        let rest = s.subrange(1, s.len() as int);
        if all_digits(rest) {
            Some(if s[0] == '-' { -digits_value(rest) } else { digits_value(rest) })
        } else {
            None
        }
    } else if all_digits(s) {
        Some(digits_value(s))
    } else {
        None
    }
}

/// The `i32` written in `s`, as `str::parse::<i32>` reads it: none where the text
/// is not an integer or the integer does not fit.
pub open spec fn i32_value(s: Seq<char>) -> Option<i32> {
    match int_value(s) {
        Some(v) => if i32::MIN <= v <= i32::MAX {
            Some(v as i32)
        } else {
            None
        },
        None => None,
    }
}

const DIGIT_CAP: u64 = 2147483649;

proof fn lemma_digits_nonneg(s: Seq<char>)
    requires
        forall|i: int| 0 <= i < s.len() ==> is_digit(#[trigger] s[i]),
    ensures
        digits_value(s) >= 0,
    decreases s.len(),
{
    if s.len() > 0 {
        lemma_digits_nonneg(s.drop_last());
    }
}

/// Reads the digits of `s` from `start` on, capping the value at `DIGIT_CAP`;
/// none where a character there is not a digit or there is none.
fn capped_digits(s: &str, start: usize) -> (r: Option<u64>)
    requires
        start <= s@.len(),
    ensures
        match r {
            Some(v) => all_digits(s@.subrange(start as int, s@.len() as int)) && v as int == (
            if digits_value(s@.subrange(start as int, s@.len() as int)) < DIGIT_CAP {
                digits_value(s@.subrange(start as int, s@.len() as int))
            } else {
                DIGIT_CAP as int
            }),
            None => !all_digits(s@.subrange(start as int, s@.len() as int)),
        },
{
    let n = s.unicode_len();
    if start >= n {
        return None;
    }
    let mut acc: u64 = 0;
    let mut i: usize = start;
    while i < n
        invariant
            start <= i <= n,
            n == s@.len(),
            forall|j: int| start <= j < i ==> is_digit(#[trigger] s@[j]),
            acc as int == (if digits_value(s@.subrange(start as int, i as int)) < DIGIT_CAP {
                digits_value(s@.subrange(start as int, i as int))
            } else {
                DIGIT_CAP as int
            }),
        decreases n - i,
    {
        let c = s.get_char(i);
        if !('0' <= c && c <= '9') {
            assert(s@.subrange(start as int, n as int)[i - start] == c);
            return None;
        }
        let d: u64 = (c as u32 - '0' as u32) as u64;
        let ghost prev = s@.subrange(start as int, i as int);
        let ghost next = s@.subrange(start as int, i + 1);
        assert(next.drop_last() =~= prev);
        assert(next.last() == c);
        proof {
            lemma_digits_nonneg(prev);
        }
        if acc >= DIGIT_CAP {
            assert(digits_value(next) >= DIGIT_CAP) by (nonlinear_arith)
                requires
                    digits_value(next) == digits_value(prev) * 10 + d,
                    digits_value(prev) >= DIGIT_CAP,
                    d >= 0,
            ;
        } else {
            let t: u64 = acc * 10 + d;
            acc = if t < DIGIT_CAP { t } else { DIGIT_CAP };
        }
        i = i + 1;
    }
    assert(all_digits(s@.subrange(start as int, n as int)));
    Some(acc)
}

/// Reads an `i32` from `s` as `str::parse::<i32>` does.
pub fn parse_i32(s: &str) -> (r: Option<i32>)
    ensures
        r == i32_value(s@),
{
    let n = s.unicode_len();
    if n == 0 {
        return None;
    }
    let c = s.get_char(0);
    let signed = c == '-' || c == '+';
    let start: usize = if signed { 1 } else { 0 };
    assert(s@.subrange(0, s@.len() as int) =~= s@);
    match capped_digits(s, start) {
        None => None,
        Some(m) => {
            proof {
                lemma_digits_nonneg(s@.subrange(start as int, s@.len() as int));
            }
            if c == '-' {
                if m <= 2147483648 {
                    Some((-(m as i64)) as i32)
                } else {
                    None
                }
            } else if m <= 2147483647 {
                Some(m as i32)
            } else {
                None
            }
        },
    }
}


/// Whether `c` has the Unicode `White_Space` property, as `char::is_whitespace`.
pub open spec fn is_space(c: char) -> bool {
    ('\t' <= c && c <= '\r') || c == ' ' || c == '\u{85}' || c == '\u{a0}' || c == '\u{1680}'
        || ('\u{2000}' <= c && c <= '\u{200a}') || c == '\u{2028}' || c == '\u{2029}' || c
        == '\u{202f}' || c == '\u{205f}' || c == '\u{3000}'
}

fn char_is_space(c: char) -> (r: bool)
    ensures
        r == is_space(c),
{
    ('\t' <= c && c <= '\r') || c == ' ' || c == '\u{85}' || c == '\u{a0}' || c == '\u{1680}'
        || ('\u{2000}' <= c && c <= '\u{200a}') || c == '\u{2028}' || c == '\u{2029}' || c
        == '\u{202f}' || c == '\u{205f}' || c == '\u{3000}'
}

/// The maximal runs of non-whitespace characters of `s`, in order.
pub open spec fn words(s: Seq<char>) -> Seq<Seq<char>>
    decreases s.len(),
{
    if s.len() == 0 {
        seq![]
    } else {
        let w = words(s.drop_last());
        let c = s.last();
        if is_space(c) {
            w
        } else if s.len() >= 2 && !is_space(s[s.len() - 2]) {
            w.drop_last().push(w.last().push(c))
        } else {
            w.push(seq![c])
        }
    }
}

/// The words of `ws` joined with single spaces.
pub open spec fn join_spaced(ws: Seq<Seq<char>>) -> Seq<char>
    decreases ws.len(),
{
    if ws.len() == 0 {
        seq![]
    } else if ws.len() == 1 {
        ws[0]
    } else {
        join_spaced(ws.drop_last()) + seq![' '] + ws.last()
    }
}

/// Views of a vector of strings.
pub open spec fn texts(v: Seq<String>) -> Seq<Seq<char>> {
    v.map_values(|t: String| t@)
}

proof fn lemma_words_nonempty_end(s: Seq<char>)
    requires
        s.len() > 0,
        !is_space(s.last()),
    ensures
        words(s).len() > 0,
{
}

/// Splits `s` into its words, as `str::split_whitespace` does.
pub fn split_words(s: &str) -> (r: Vec<String>)
    ensures
        texts(r@) == words(s@),
{
    let n = s.unicode_len();
    let mut out: Vec<String> = Vec::new();
    let mut i: usize = 0;
    assert(s@.subrange(0, 0) =~= Seq::<char>::empty());
    assert(texts(out@) =~= words(s@.subrange(0, 0)));
    while i < n
        invariant
            i <= n,
            n == s@.len(),
            texts(out@) == words(s@.subrange(0, i as int)),
        decreases n - i,
    {
        let c = s.get_char(i);
        let ghost prev = s@.subrange(0, i as int);
        let ghost next = s@.subrange(0, i + 1);
        assert(next.drop_last() =~= prev);
        assert(next.last() == c);
        if char_is_space(c) {
        } else {
            let piece = s.substring_char(i, i + 1);
            assert(piece@ =~= seq![c]);
            if i > 0 && !char_is_space(s.get_char(i - 1)) {
                assert(next[next.len() - 2] == s@[i - 1]);
                proof {
                    lemma_words_nonempty_end(prev);
                }
                let ghost before = out@;
                let mut last = out.pop().unwrap();
                assert(texts(out@) =~= texts(before).drop_last());
                assert(last@ == texts(before).last());
                last.append(piece);
                assert(last@ =~= texts(before).last().push(c));
                let ghost mid = out@;
                out.push(last);
                assert(texts(out@) =~= texts(mid).push(last@));
                assert(texts(out@) =~= texts(before).drop_last().push(texts(before).last().push(c)));
                assert(texts(out@) =~= words(next));
            } else {
                if i > 0 {
                    assert(next[next.len() - 2] == s@[i - 1]);
                }
                out.push(String::from_str(piece));
                assert(texts(out@) =~= words(next));
            }
        }
        i = i + 1;
    }
    assert(s@.subrange(0, n as int) =~= s@);
    out
}

/// Joins `ws[from..]` with single spaces, as `[String]::join(" ")` does.
pub fn join_from(ws: &Vec<String>, from: usize) -> (r: String)
    requires
        from <= ws@.len(),
    ensures
        r@ == join_spaced(texts(ws@).subrange(from as int, ws@.len() as int)),
{
    let mut out = String::new();
    let mut i: usize = from;
    assert(texts(ws@).subrange(from as int, from as int) =~= Seq::<Seq<char>>::empty());
    while i < ws.len()
        invariant
            from <= i <= ws@.len(),
            out@ == join_spaced(texts(ws@).subrange(from as int, i as int)),
        decreases ws@.len() - i,
    {
        let ghost prev = texts(ws@).subrange(from as int, i as int);
        let ghost next = texts(ws@).subrange(from as int, i + 1);
        assert(next.drop_last() =~= prev);
        if i > from {
            proof {
                reveal_strlit(" ");
            }
            out.append(" ");
        }
        out.append(ws[i].as_str());
        assert(out@ =~= join_spaced(next));
        i = i + 1;
    }
    out
}


/// Whether `a` and `b` hold the same characters.
pub fn same_text(a: &str, b: &str) -> (r: bool)
    ensures
        r == (a@ == b@),
{
    let n = a.unicode_len();
    if n != b.unicode_len() {
        return false;
    }
    let mut i: usize = 0;
    while i < n
        invariant
            i <= n,
            n == a@.len(),
            n == b@.len(),
            forall|j: int| 0 <= j < i ==> a@[j] == b@[j],
        decreases n - i,
    {
        if a.get_char(i) != b.get_char(i) {
            return false;
        }
        i = i + 1;
    }
    assert(a@ =~= b@);
    true
}

} // verus!
