//! Building and taking apart text.

use vstd::prelude::*;
use vstd::string::{StrSliceExecFns, StringExecFns};

verus! {

/// `String::push` appends the character to the end of the string.
pub assume_specification[ String::push ](s: &mut String, ch: char)
    ensures
        final(s)@ == old(s)@.push(ch),
;

/// The decimal digit `d` as a character.
pub open spec fn digit_char(d: int) -> char {
    (('0' as u32) + d) as char
}

/// `n` written in decimal, without leading zeros.
pub open spec fn decimal(n: nat) -> Seq<char>
    decreases n,
{
    if n < 10 {
        seq![digit_char(n as int)]
    } else {
        decimal(n / 10).push(digit_char((n % 10) as int))
    }
}

/// `n` written in decimal, with a sign when it is negative.
pub open spec fn signed_decimal(n: int) -> Seq<char> {
    if n < 0 {
        seq!['-'] + decimal((-n) as nat)
    } else {
        decimal(n as nat)
    }
}

/// `n` written in decimal and padded with zeros on the left to `width`.
pub open spec fn padded_decimal(n: nat, width: nat) -> Seq<char> {
    let digits = decimal(n);
    if digits.len() < width {
        Seq::new((width - digits.len()) as nat, |i: int| '0') + digits
    } else {
        digits
    }
}

/// The texts that strings hold.
pub open spec fn texts(strings: Seq<String>) -> Seq<Seq<char>> {
    Seq::new(strings.len(), |i: int| strings[i]@)
}

/// Different numbers are written differently.
pub proof fn lemma_decimal_injective(a: nat, b: nat)
    requires
        decimal(a) == decimal(b),
    ensures
        a == b,
    decreases a,
{
    let s = decimal(a);
    let t = decimal(b);
    lemma_decimal_nonempty(a);
    lemma_decimal_nonempty(b);
    assert(s.last() == digit_char((a % 10) as int));
    assert(t.last() == digit_char((b % 10) as int));
    assert(a % 10 == b % 10);
    if a >= 10 {
        lemma_decimal_nonempty(a / 10);
        assert(s.drop_last() =~= decimal(a / 10));
    }
    if b >= 10 {
        lemma_decimal_nonempty(b / 10);
        assert(t.drop_last() =~= decimal(b / 10));
    }
    if a >= 10 && b >= 10 {
        lemma_decimal_injective(a / 10, b / 10);
    }
}

proof fn lemma_decimal_nonempty(n: nat)
    ensures
        decimal(n).len() > 0,
{
}

/// The characters of a string, in order.
pub fn chars_of(s: &str) -> (chars: Vec<char>)
    ensures
        chars@ == s@,
{
    let mut out: Vec<char> = Vec::new();
    for c in it: s.chars()
        invariant
            out@ == it.seq().take(it.index() as int),
            it.seq() == s@,
    {
        out.push(c);
    }
    out
}

/// Appends `chars[from..to]` to `out`.
pub fn push_chars(out: &mut String, chars: &Vec<char>, from: usize, to: usize)
    requires
        from <= to <= chars@.len(),
    ensures
        final(out)@ == old(out)@ + chars@.subrange(from as int, to as int),
{
    let mut i: usize = from;
    while i < to
        invariant
            from <= i <= to <= chars@.len(),
            out@ == old(out)@ + chars@.subrange(from as int, i as int),
        decreases to - i,
    {
        out.push(chars[i]);
        i += 1;
        assert(out@ =~= old(out)@ + chars@.subrange(from as int, i as int));
    }
}

/// The text made of `chars[from..to]`.
pub fn string_of(chars: &Vec<char>, from: usize, to: usize) -> (s: String)
    requires
        from <= to <= chars@.len(),
    ensures
        s@ == chars@.subrange(from as int, to as int),
{
    let mut out: String = String::new();
    push_chars(&mut out, chars, from, to);
    assert(out@ =~= chars@.subrange(from as int, to as int));
    out
}

/// A string holding the same text as `s`.
pub fn owned(s: &str) -> (r: String)
    ensures
        r@ == s@,
{
    s.to_owned()
}

/// Appends `n` in decimal.
pub fn push_decimal(out: &mut String, n: u64)
    ensures
        final(out)@ == old(out)@ + decimal(n as nat),
    decreases n,
{
    if n >= 10 {
        push_decimal(out, n / 10);
    }
    let d: u8 = (n % 10) as u8;
    out.push((48u8 + d) as char);
    assert(out@ =~= old(out)@ + decimal(n as nat));
}

/// Appends `n` in decimal, with a sign when it is negative.
pub fn push_signed(out: &mut String, n: i64)
    ensures
        final(out)@ == old(out)@ + signed_decimal(n as int),
{
    if n < 0 {
        out.push('-');
        if n == i64::MIN {
            push_decimal(out, 9223372036854775808u64);
        } else {
            push_decimal(out, (0 - n) as u64);
        }
    } else {
        push_decimal(out, n as u64);
    }
    assert(out@ =~= old(out)@ + signed_decimal(n as int));
}

/// Appends `n` in decimal, zero-padded on the left to `width`.
pub fn push_padded(out: &mut String, n: u64, width: usize)
    ensures
        final(out)@ == old(out)@ + padded_decimal(n as nat, width as nat),
{
    let mut digits: String = String::new();
    push_decimal(&mut digits, n);
    assert(digits@ =~= decimal(n as nat));
    let len: usize = digits.as_str().unicode_len();
    let mut i: usize = len;
    while i < width
        invariant
            len <= i,
            i <= width || i == len,
            digits@ == decimal(n as nat),
            len == digits@.len(),
            out@ == old(out)@ + Seq::new((i - len) as nat, |j: int| '0'),
        decreases width - i,
    {
        out.push('0');
        i += 1;
        assert(out@ =~= old(out)@ + Seq::new((i - len) as nat, |j: int| '0'));
    }
    out.append(digits.as_str());
    assert(out@ =~= old(out)@ + padded_decimal(n as nat, width as nat));
}

/// The text of a string followed by that of another.
pub fn joined(a: &str, b: &str) -> (r: String)
    ensures
        r@ == a@ + b@,
{
    let mut out: String = owned(a);
    out.append(b);
    out
}

/// Whether two strings hold the same text.
pub fn same_text(a: &str, b: &str) -> (r: bool)
    ensures
        r == (a@ == b@),
{
    let a: String = owned(a);
    let b: String = owned(b);
    a == b
}

/// Whether text `i` is the first one that reads like this.
pub open spec fn first_text(texts: Seq<Seq<char>>, wanted: Seq<char>, i: int) -> bool {
    &&& 0 <= i < texts.len()
    &&& texts[i] == wanted
    &&& forall|j: int| 0 <= j < i ==> #[trigger] texts[j] != wanted
}

/// Where a text stands first among others.
pub fn position_of(strings: &Vec<String>, wanted: &str) -> (r: Option<usize>)
    ensures
        match r {
            Some(i) => first_text(texts(strings@), wanted@, i as int),
            None => !texts(strings@).contains(wanted@),
        },
        r is None <==> forall|i: int| 0 <= i < strings@.len() ==> (#[trigger] strings@[i])@ != wanted@,
        r is Some ==> r->0 < strings@.len() && strings@[r->0 as int]@ == wanted@ && (forall|i: int|
            0 <= i < r->0 ==> (#[trigger] strings@[i])@ != wanted@),
{
    let mut i: usize = 0;
    while i < strings.len()
        invariant
            i <= strings@.len(),
            forall|j: int| 0 <= j < i ==> #[trigger] texts(strings@)[j] != wanted@,
            forall|j: int| 0 <= j < i ==> (#[trigger] strings@[j])@ != wanted@,
        decreases strings@.len() - i,
    {
        assert(texts(strings@)[i as int] == strings@[i as int]@);
        if same_text(strings[i].as_str(), wanted) {
            return Some(i);
        }
        i += 1;
    }
    None
}

/// Whether a character is white space, by the Unicode property of that name.
pub open spec fn is_white_space(c: char) -> bool {
    let v = c as u32;
    ||| 0x9 <= v <= 0xd
    ||| v == 0x20
    ||| v == 0x85
    ||| v == 0xa0
    ||| v == 0x1680
    ||| 0x2000 <= v <= 0x200a
    ||| 0x2028 <= v <= 0x2029
    ||| v == 0x202f
    ||| v == 0x205f
    ||| v == 0x3000
}

fn white_space(c: char) -> (r: bool)
    ensures
        r == is_white_space(c),
{
    let v: u32 = c as u32;
    (0x9 <= v && v <= 0xd) || v == 0x20 || v == 0x85 || v == 0xa0 || v == 0x1680 || (0x2000 <= v
        && v <= 0x200a) || v == 0x2028 || v == 0x2029 || v == 0x202f || v == 0x205f || v == 0x3000
}

/// Whether `inner` is `s` without the white space at both ends.
pub open spec fn is_trimmed(inner: Seq<char>, s: Seq<char>) -> bool {
    exists|from: int, to: int|
        #![trigger s.subrange(from, to)]
        0 <= from <= to <= s.len() && inner == s.subrange(from, to) && (forall|i: int|
            0 <= i < from ==> is_white_space(#[trigger] s[i])) && (forall|i: int|
            to <= i < s.len() ==> is_white_space(#[trigger] s[i])) && (from < to ==>
            !is_white_space(s[from]) && !is_white_space(s[to - 1]))
}

/// A text without the white space at both ends.
pub open spec fn trimmed_text(s: Seq<char>) -> Seq<char> {
    choose|inner: Seq<char>| is_trimmed(inner, s)
}

/// Trimming a text leaves one thing only.
pub proof fn lemma_trimmed_once(a: Seq<char>, b: Seq<char>, s: Seq<char>)
    requires
        is_trimmed(a, s),
        is_trimmed(b, s),
    ensures
        a == b,
{
    let (fa, ta) = choose|from: int, to: int|
        #![trigger s.subrange(from, to)]
        0 <= from <= to <= s.len() && a == s.subrange(from, to) && (forall|i: int|
            0 <= i < from ==> is_white_space(#[trigger] s[i])) && (forall|i: int|
            to <= i < s.len() ==> is_white_space(#[trigger] s[i])) && (from < to ==>
            !is_white_space(s[from]) && !is_white_space(s[to - 1]));
    let (fb, tb) = choose|from: int, to: int|
        #![trigger s.subrange(from, to)]
        0 <= from <= to <= s.len() && b == s.subrange(from, to) && (forall|i: int|
            0 <= i < from ==> is_white_space(#[trigger] s[i])) && (forall|i: int|
            to <= i < s.len() ==> is_white_space(#[trigger] s[i])) && (from < to ==>
            !is_white_space(s[from]) && !is_white_space(s[to - 1]));
    if fa < ta {
        assert(!is_white_space(s[fa]));
        assert(fb <= fa < tb);
        assert(!is_white_space(s[ta - 1]));
        assert(fb <= ta - 1 < tb);
        assert(!is_white_space(s[fb]));
        assert(!is_white_space(s[tb - 1]));
        assert(fa == fb && ta == tb);
    } else if fb < tb {
        assert(!is_white_space(s[fb]));
        assert(fa <= fb < ta);
    } else {
        assert(a =~= b);
    }
}

/// The text without the white space at both ends.
pub fn trimmed(s: &str) -> (r: String)
    ensures
        is_trimmed(r@, s@),
        r@ == trimmed_text(s@),
{
    let chars: Vec<char> = chars_of(s);
    let n: usize = chars.len();
    let mut from: usize = 0;
    while from < n && white_space(chars[from])
        invariant
            from <= n == chars@.len(),
            forall|i: int| 0 <= i < from ==> is_white_space(#[trigger] chars@[i]),
        decreases n - from,
    {
        from += 1;
    }
    let mut to: usize = n;
    while to > from && white_space(chars[to - 1])
        invariant
            from <= to <= n == chars@.len(),
            forall|i: int| to <= i < n ==> is_white_space(#[trigger] chars@[i]),
        decreases to,
    {
        to -= 1;
    }
    let out: String = string_of(&chars, from, to);
    proof {
        assert(s@.subrange(from as int, to as int) == out@);
        assert(is_trimmed(out@, s@));
        lemma_trimmed_once(out@, trimmed_text(s@), s@);
    }
    out
}

/// The number that a run of decimal digits stands for.
pub open spec fn decimal_value(digits: Seq<char>) -> int
    decreases digits.len(),
{
    if digits.len() == 0 {
        0
    } else {
        decimal_value(digits.drop_last()) * 10 + (digits.last() as int - '0' as int)
    }
}

/// A number in decimal reads back: digits alone, and no zero in front.
pub proof fn law_decimal_reads_back(n: nat)
    ensures
        decimal_value(decimal(n)) == n,
        decimal(n).len() > 0,
        forall|i: int| 0 <= i < decimal(n).len() ==> '0' <= #[trigger] decimal(n)[i] <= '9',
        decimal(n).len() > 1 ==> decimal(n)[0] != '0',
    decreases n,
{
    let text = decimal(n);
    if n < 10 {
        assert(text.drop_last() =~= Seq::<char>::empty());
        assert(decimal_value(text.drop_last()) == 0);
    } else {
        law_decimal_reads_back(n / 10);
        assert(text.drop_last() =~= decimal(n / 10));
        assert(decimal(n)[0] == decimal(n / 10)[0]);
        if n / 10 < 10 {
            assert(decimal(n / 10)[0] == digit_char((n / 10) as int));
        } else {
            law_decimal_is_as_long_as_needed(n / 10);
        }
    }
}

/// How many digits a number has.
pub proof fn law_decimal_is_as_long_as_needed(n: nat)
    ensures
        n < 10 <==> decimal(n).len() == 1,
        n < 100 <==> decimal(n).len() <= 2,
        n < 1000 <==> decimal(n).len() <= 3,
        n < 10000 <==> decimal(n).len() <= 4,
{
    reveal_with_fuel(decimal, 5);
}

proof fn lemma_zeros_in_front(count: nat, digits: Seq<char>)
    ensures
        decimal_value(Seq::new(count, |i: int| '0') + digits) == decimal_value(digits),
    decreases count + digits.len(),
{
    let zeros = Seq::new(count, |i: int| '0');
    let all = zeros + digits;
    if digits.len() > 0 {
        lemma_zeros_in_front(count, digits.drop_last());
        assert(all.drop_last() =~= zeros + digits.drop_last());
    } else if count > 0 {
        let fewer = Seq::new((count - 1) as nat, |i: int| '0');
        lemma_zeros_in_front((count - 1) as nat, digits);
        assert(all.drop_last() =~= fewer + digits);
    } else {
        assert(all =~= digits);
    }
}

/// Padding puts zeros in front and nothing else: the number stays, and so do its digits.
pub proof fn law_padding_keeps_the_number(n: nat, width: nat)
    ensures
        decimal_value(padded_decimal(n, width)) == n,
        padded_decimal(n, width).len() >= width,
        decimal(n).len() >= width ==> padded_decimal(n, width) == decimal(n),
        decimal(n).len() < width ==> padded_decimal(n, width).len() == width,
        forall|i: int|
            0 <= i < padded_decimal(n, width).len() ==> '0' <= #[trigger] padded_decimal(
                n,
                width,
            )[i] <= '9',
{
    law_decimal_reads_back(n);
    let digits = decimal(n);
    if digits.len() < width {
        lemma_zeros_in_front((width - digits.len()) as nat, digits);
    }
}

/// A number below zero has a minus in front of its digits.
pub proof fn law_signs_are_in_front(n: int)
    ensures
        n >= 0 ==> decimal_value(signed_decimal(n)) == n && signed_decimal(n)[0] != '-',
        n < 0 ==> signed_decimal(n)[0] == '-' && decimal_value(signed_decimal(n).skip(1)) == -n,
{
    if n < 0 {
        law_decimal_reads_back((-n) as nat);
        assert(signed_decimal(n).skip(1) =~= decimal((-n) as nat));
    } else {
        law_decimal_reads_back(n as nat);
    }
}

/// Which characters of ASCII are white space: the blank, and those from the tab to the
/// carriage return.
pub proof fn law_white_space_of_ascii(c: char)
    ensures
        c as int <= 0x7f ==> (is_white_space(c) <==> c == ' ' || '\t' <= c <= '\r'),
        is_white_space('\u{85}') && is_white_space('\u{a0}') && is_white_space('\u{3000}'),
        'a' <= c <= 'z' || 'A' <= c <= 'Z' || '0' <= c <= '9' ==> !is_white_space(c),
{
}

/// Trimming takes white space off both ends and leaves the rest: what is trimmed begins
/// and ends with none, and a text that does so is left alone.
pub proof fn law_trimming_takes_the_ends_off(inner: Seq<char>, s: Seq<char>)
    requires
        is_trimmed(inner, s),
    ensures
        inner.len() > 0 ==> !is_white_space(inner[0]) && !is_white_space(inner.last()),
        exists|before: Seq<char>, after: Seq<char>|
            #![trigger before + inner + after]
            s == before + inner + after && (forall|i: int|
                0 <= i < before.len() ==> is_white_space(#[trigger] before[i])) && (forall|i: int|
                0 <= i < after.len() ==> is_white_space(#[trigger] after[i])),
        s.len() > 0 && !is_white_space(s[0]) && !is_white_space(s.last()) ==> inner == s,
        (forall|i: int| 0 <= i < s.len() ==> is_white_space(#[trigger] s[i])) ==> inner.len() == 0,
{
    let (from, to) = choose|from: int, to: int|
        #![trigger s.subrange(from, to)]
        0 <= from <= to <= s.len() && inner == s.subrange(from, to) && (forall|i: int|
            0 <= i < from ==> is_white_space(#[trigger] s[i])) && (forall|i: int|
            to <= i < s.len() ==> is_white_space(#[trigger] s[i])) && (from < to ==>
            !is_white_space(s[from]) && !is_white_space(s[to - 1]));
    let before = s.take(from);
    let after = s.skip(to);
    assert(s =~= before + inner + after);
    if s.len() > 0 && !is_white_space(s[0]) && !is_white_space(s.last()) {
        assert(from == 0 && to == s.len());
        assert(inner =~= s);
    }
}

/// The texts of strings are those of each, in order.
pub proof fn law_texts_are_those_of_each(strings: Seq<String>, i: int)
    ensures
        texts(strings).len() == strings.len(),
        0 <= i < strings.len() ==> texts(strings)[i] == strings[i]@,
{
}

} // verus!
