//! What reading and printing text promises: how results on a whole follow from results on parts,
//! and what printing and reading undo of each other.
use vstd::prelude::*;

use crate::text::{
    all_digits, decimal, decimal_string, digits_value, hex_byte_string, is_space, lines_of,
    parse_i32, parse_u64, split_lines, trim, trimmed, views, words, words_of,
};

verus! {

// ---------------------------------------------------------------------------
// Lines
// ---------------------------------------------------------------------------

/// Law: text without a line feed is one line; and the lines of two texts with a line feed
/// between them are the lines of the one and then those of the other.
pub proof fn lemma_lines(
    whole: &Vec<char>,
    r: Vec<Vec<char>>,
    a: Seq<char>,
    b: Seq<char>,
)
    requires
        call_ensures(lines_of, (whole,), r),
    ensures
        !whole@.contains('\n') ==> views(r@) == seq![whole@],
        whole@ == a.push('\n') + b ==> views(r@) == split_lines(a) + split_lines(b),
{
    if !whole@.contains('\n') {
        lemma_one_line(whole@);
    }
    if whole@ == a.push('\n') + b {
        lemma_lines_append(a, b);
    }
}

/// Text without a line feed is one line.
pub proof fn lemma_one_line(s: Seq<char>)
    requires
        !s.contains('\n'),
    ensures
        split_lines(s) == seq![s],
    decreases s.len(),
{
    if s.len() > 0 {
        let front = s.drop_last();
        assert(!front.contains('\n')) by {
            if front.contains('\n') {
                assert(s[front.index_of('\n')] == '\n');
            }
        }
        lemma_one_line(front);
        assert(s.last() != '\n') by {
            if s.last() == '\n' {
                assert(s[s.len() - 1] == '\n');
            }
        }
        assert(front.push(s.last()) =~= s);
        assert(split_lines(s) =~= seq![s]);
    } else {
        assert(s =~= Seq::<char>::empty());
    }
}

/// The lines of two texts with a line feed between them.
pub proof fn lemma_lines_append(a: Seq<char>, b: Seq<char>)
    ensures
        split_lines(a.push('\n') + b) == split_lines(a) + split_lines(b),
        split_lines(b).len() > 0,
    decreases b.len(),
{
    let s = a.push('\n') + b;
    if b.len() == 0 {
        assert(s =~= a.push('\n'));
        assert(s.drop_last() =~= a);
        assert(split_lines(s) =~= split_lines(a) + split_lines(b));
    } else {
        let front = b.drop_last();
        lemma_lines_append(a, front);
        assert(s.drop_last() =~= a.push('\n') + front);
        assert(s.last() == b.last());
        assert(split_lines(s) =~= split_lines(a) + split_lines(b));
    }
}

// ---------------------------------------------------------------------------
// Words and trimming
// ---------------------------------------------------------------------------

/// Law: among the first hundred and twenty-eight characters the blank, the tab, and the four
/// characters behind the tab are white space, and nothing else is.
pub proof fn lemma_ascii_space(c: char)
    requires
        (c as int) < 128,
    ensures
        is_space(c) == (c == ' ' || c == '\t' || c == '\n' || c == '\r' || c as int == 11 || c as int
            == 12),
{
}

/// Law: text of at least one character, none of it white space, is one word; white space alone
/// is none; and the words of two texts with white space between them are the words of the one
/// and then those of the other.
pub proof fn lemma_words(
    whole: &Vec<char>,
    r: Vec<Vec<char>>,
    a: Seq<char>,
    c: char,
    b: Seq<char>,
)
    requires
        call_ensures(words_of, (whole,), r),
    ensures
        whole@.len() == 0 ==> views(r@).len() == 0,
        whole@.len() > 0 && (forall|i: int| 0 <= i < whole@.len() ==> !is_space(#[trigger] whole@[i]))
            ==> views(r@) == seq![whole@],
        is_space(c) && whole@ == a.push(c) + b ==> views(r@) == words(a) + words(b),
{
    if whole@.len() > 0 && (forall|i: int|
        0 <= i < whole@.len() ==> !is_space(#[trigger] whole@[i])) {
        lemma_one_word(whole@);
    }
    if is_space(c) && whole@ == a.push(c) + b {
        lemma_words_append(a, c, b);
    }
}

/// Text without white space is one word.
pub proof fn lemma_one_word(s: Seq<char>)
    requires
        s.len() > 0,
        forall|i: int| 0 <= i < s.len() ==> !is_space(#[trigger] s[i]),
    ensures
        words(s) == seq![s],
    decreases s.len(),
{
    let front = s.drop_last();
    assert(s[s.len() - 1] == s.last());
    if s.len() == 1 {
        assert(front =~= Seq::<char>::empty());
        assert(words(front) =~= Seq::<Seq<char>>::empty());
        assert(seq![s.last()] =~= s);
        assert(words(s) =~= seq![s]);
    } else {
        assert forall|i: int| 0 <= i < front.len() implies !is_space(#[trigger] front[i]) by {
            assert(front[i] == s[i]);
        }
        lemma_one_word(front);
        assert(!is_space(s[s.len() - 2]));
        assert(front.push(s.last()) =~= s);
        let before = seq![front];
        assert(words(front) == before);
        assert(before.drop_last() =~= Seq::<Seq<char>>::empty());
        assert(words(s) == before.drop_last().push(before.last().push(s.last())));
        assert(words(s) =~= seq![s]);
    }
}

/// The words of two texts with white space between them.
pub proof fn lemma_words_append(a: Seq<char>, c: char, b: Seq<char>)
    requires
        is_space(c),
    ensures
        words(a.push(c) + b) == words(a) + words(b),
        b.len() > 0 && !is_space(b.last()) ==> words(b).len() > 0,
    decreases b.len(),
{
    let s = a.push(c) + b;
    if b.len() == 0 {
        assert(s =~= a.push(c));
        assert(s.drop_last() =~= a);
        assert(words(s) =~= words(a) + words(b));
    } else {
        let front = b.drop_last();
        lemma_words_append(a, c, front);
        assert(s.drop_last() =~= a.push(c) + front);
        assert(s.last() == b.last());
        if b.len() > 1 {
            assert(s[s.len() - 2] == b[b.len() - 2]);
            assert(front.last() == b[b.len() - 2]);
        } else {
            assert(s[s.len() - 2] == c);
        }
        assert(words(s) =~= words(a) + words(b));
    }
}

/// Law: trimming takes white space off the two ends, all of it, and nothing else.
pub proof fn lemma_trim(s: &Vec<char>, r: Vec<char>) -> (ends: (Seq<char>, Seq<char>))
    requires
        call_ensures(trim, (s,), r),
    ensures
        s@ == ends.0 + r@ + ends.1,
        forall|i: int| 0 <= i < ends.0.len() ==> is_space(#[trigger] ends.0[i]),
        forall|i: int| 0 <= i < ends.1.len() ==> is_space(#[trigger] ends.1[i]),
        r@.len() > 0 ==> !is_space(r@[0]) && !is_space(r@[r@.len() - 1]),
{
    lemma_trimmed(s@)
}

/// What trimming takes off.
pub proof fn lemma_trimmed(s: Seq<char>) -> (ends: (Seq<char>, Seq<char>))
    ensures
        s == ends.0 + trimmed(s) + ends.1,
        forall|i: int| 0 <= i < ends.0.len() ==> is_space(#[trigger] ends.0[i]),
        forall|i: int| 0 <= i < ends.1.len() ==> is_space(#[trigger] ends.1[i]),
        trimmed(s).len() > 0 ==> !is_space(trimmed(s)[0]) && !is_space(
            trimmed(s)[trimmed(s).len() - 1],
        ),
    decreases s.len(),
{
    if s.len() > 0 && is_space(s.first()) {
        let e = lemma_trimmed(s.drop_first());
        let l = seq![s.first()] + e.0;
        assert(trimmed(s) == trimmed(s.drop_first()));
        assert(s =~= seq![s.first()] + s.drop_first());
        assert(l + trimmed(s) + e.1 =~= seq![s.first()] + (e.0 + trimmed(s) + e.1));
        (l, e.1)
    } else if s.len() > 0 && is_space(s.last()) {
        let e = lemma_trimmed(s.drop_last());
        let r = e.1.push(s.last());
        assert(trimmed(s) == trimmed(s.drop_last()));
        assert(s =~= s.drop_last().push(s.last()));
        assert(e.0 + trimmed(s) + r =~= (e.0 + trimmed(s) + e.1).push(s.last()));
        (e.0, r)
    } else {
        assert(s =~= Seq::<char>::empty() + trimmed(s) + Seq::<char>::empty());
        (Seq::empty(), Seq::empty())
    }
}

// ---------------------------------------------------------------------------
// Numbers
// ---------------------------------------------------------------------------

/// Law: a number that was printed is read back as itself, and printed without a needless zero.
pub proof fn lemma_printed_number_reads_back(n: u64, text: String, chars: &Vec<char>, r: Option<u64>)
    requires
        call_ensures(decimal_string, (n,), text),
        chars@ == text@,
        call_ensures(parse_u64, (chars,), r),
    ensures
        r == Some(n),
        text@.len() > 1 ==> text@[0] != '0',
        forall|i: int| 0 <= i < text@.len() ==> '0' <= #[trigger] text@[i] <= '9',
{
    lemma_decimal_value(n as nat);
    assert(all_digits(decimal(n as nat)));
    assert forall|i: int| 0 <= i < text@.len() implies '0' <= #[trigger] text@[i] <= '9' by {
        assert(crate::text::is_digit(decimal(n as nat)[i]));
    }
}

/// What is printed for `n` denotes `n`.
pub proof fn lemma_decimal_value(n: nat)
    ensures
        decimal(n).len() > 0,
        all_digits(decimal(n)),
        digits_value(decimal(n)) == n,
        decimal(n)[0] != '+',
        n > 0 ==> decimal(n)[0] != '0',
        n == 0 ==> decimal(n) == seq!['0'],
    decreases n,
{
    if n < 10 {
        assert(decimal(n).drop_last() =~= Seq::<char>::empty());
        assert(digits_value(Seq::<char>::empty()) == 0);
        assert(decimal(n).last() == crate::text::digit(n));
    } else {
        lemma_decimal_value(n / 10);
        let front = decimal(n / 10);
        let s = decimal(n);
        assert(s.drop_last() =~= front);
        assert(s[0] == front[0]);
        assert forall|i: int| 0 <= i < s.len() implies crate::text::is_digit(#[trigger] s[i]) by {
            if i < front.len() {
                assert(front[i] == s[i]);
            }
        }
        assert(n == (n / 10) * 10 + n % 10);
    }
}

/// Law: a number is read only out of digits, with a plus sign in front at most. Zeros in front
/// and the plus sign make no difference, one more digit behind makes ten times the number and
/// the digit, and a number that does not fit is none.
pub proof fn lemma_numbers_are_digits(
    s: &Vec<char>,
    more: &Vec<char>,
    d: char,
    a: Option<u64>,
    b: Option<u64>,
)
    requires
        call_ensures(parse_u64, (s,), a),
        call_ensures(parse_u64, (more,), b),
    ensures
        s@.len() == 0 ==> a is None,
        (exists|i: int| 0 < i < s@.len() && !('0' <= #[trigger] s@[i] <= '9')) ==> a is None,
        s@.len() > 0 && !('0' <= s@[0] <= '9') && s@[0] != '+' ==> a is None,
        '0' <= d <= '9' && s@ == seq![d] ==> a == Some((d as u64 - '0' as u64) as u64),
        a matches Some(v) ==> ('0' <= d <= '9' && more@ == s@.push(d) ==> b == (if v * 10 + (d as int
            - '0' as int) <= u64::MAX {
            Some((v * 10 + (d as int - '0' as int)) as u64)
        } else {
            None
        })),
        s@.len() > 0 && s@[0] != '+' && more@ == seq!['+'] + s@ ==> b == a,
{
    let body = if s@.len() > 0 && s@[0] == '+' {
        s@.drop_first()
    } else {
        s@
    };
    if exists|i: int| 0 < i < s@.len() && !('0' <= #[trigger] s@[i] <= '9') {
        let i = choose|i: int| 0 < i < s@.len() && !('0' <= #[trigger] s@[i] <= '9');
        let k = if s@[0] == '+' {
            i - 1
        } else {
            i
        };
        assert(body[k] == s@[i]);
        assert(!crate::text::is_digit(body[k]));
    }
    if s@.len() > 0 && !('0' <= s@[0] <= '9') && s@[0] != '+' {
        assert(!crate::text::is_digit(body[0]));
    }
    if '0' <= d <= '9' && s@ == seq![d] {
        assert(body.drop_last() =~= Seq::<char>::empty());
        assert(digits_value(Seq::<char>::empty()) == 0);
        assert(all_digits(body));
    }
    if a is Some && '0' <= d <= '9' && more@ == s@.push(d) {
        let longer = if more@[0] == '+' {
            more@.drop_first()
        } else {
            more@
        };
        assert(longer =~= body.push(d));
        assert(longer.drop_last() =~= body);
        assert(all_digits(longer)) by {
            assert forall|i: int| 0 <= i < longer.len() implies crate::text::is_digit(
                #[trigger] longer[i],
            ) by {
                if i < body.len() {
                    assert(body[i] == longer[i]);
                }
            }
        }
    }
    if s@.len() > 0 && s@[0] != '+' && more@ == seq!['+'] + s@ {
        assert(more@.drop_first() =~= s@);
    }
}

/// Law: a signed number is an unsigned one that fits, or a minus sign and digits.
pub proof fn lemma_signed_numbers(
    s: &Vec<char>,
    negated: &Vec<char>,
    u: Option<u64>,
    a: Option<i32>,
    b: Option<i32>,
)
    requires
        call_ensures(parse_u64, (s,), u),
        call_ensures(parse_i32, (s,), a),
        call_ensures(parse_i32, (negated,), b),
    ensures
        s@.len() > 0 && s@[0] != '-' && s@[0] != '+' ==> a == (match u {
            Some(v) => if v <= 0x7fff_ffff {
                Some(v as i32)
            } else {
                None
            },
            None => None,
        }),
        s@.len() > 0 && s@[0] != '-' && s@[0] != '+' && negated@ == seq!['-'] + s@ ==> b == (
        match u {
            Some(v) => if v <= 0x8000_0000 {
                Some((-(v as int)) as i32)
            } else {
                None
            },
            None => None,
        }),
{
    if s@.len() > 0 && s@[0] != '-' && s@[0] != '+' && negated@ == seq!['-'] + s@ {
        assert(negated@.drop_first() =~= s@);
    }
}

/// Law: a byte is printed as its two hexadecimal digits, the high one first.
pub proof fn lemma_printed_byte(b: u8, r: String)
    requires
        call_ensures(hex_byte_string, (b,), r),
    ensures
        r@.len() == 4,
        r@[0] == '0' && r@[1] == 'x',
        hex_value(r@[2]) matches Some(h) && (hex_value(r@[3]) matches Some(l) && h * 16 + l == b),
{
}

/// The value of a lower-case hexadecimal digit.
pub open spec fn hex_value(c: char) -> Option<int> {
    if '0' <= c && c <= '9' {
        Some(c as int - '0' as int)
    } else if 'a' <= c && c <= 'f' {
        Some(c as int - 'a' as int + 10)
    } else {
        None
    }
}

} // verus!
