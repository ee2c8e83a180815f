use vstd::prelude::*;
use vstd::string::is_ascii;

verus! {

/// Decimal digit character of `d < 10`.
pub open spec fn digit_char(d: nat) -> char {
    if d == 0 { '0' } else if d == 1 { '1' } else if d == 2 { '2' } else if d == 3 { '3' } else if d == 4 { '4' }
    else if d == 5 { '5' } else if d == 6 { '6' } else if d == 7 { '7' } else if d == 8 { '8' } else { '9' }
}

pub open spec fn is_digit(c: char) -> bool {
    '0' <= c <= '9'
}

/// Value of a decimal digit character.
pub open spec fn digit_value(c: char) -> nat {
    ((c as u32) - ('0' as u32)) as nat
}

/// The canonical decimal text of `n`: no sign, no leading zero.
pub open spec fn digits(n: nat) -> Seq<char>
    decreases n,
{
    if n < 10 { seq![digit_char(n)] } else { digits(n / 10).push(digit_char(n % 10)) }
}

/// The number written by a string of decimal digits.
pub open spec fn value_of(s: Seq<char>) -> nat
    decreases s.len(),
{
    if s.len() == 0 { 0 } else { value_of(s.drop_last()) * 10 + digit_value(s.last()) }
}

/// `t` is a decimal number as `digits` writes it, and fits in `usize`.
pub open spec fn is_canonical_usize(t: Seq<char>) -> bool {
    &&& t.len() > 0
    &&& forall|i: int| 0 <= i < t.len() ==> is_digit(#[trigger] t[i])
    &&& (t.len() == 1 || t[0] != '0')
    &&& value_of(t) <= usize::MAX
}

proof fn lemma_digit_char(d: nat)
    requires
        d < 10,
    ensures
        is_digit(digit_char(d)),
        digit_value(digit_char(d)) == d,
        (digit_char(d) == '0') == (d == 0),
{
}

/// `digits` writes a canonical number that reads back as `n`.
pub proof fn lemma_digits(n: nat)
    ensures
        digits(n).len() > 0,
        forall|i: int| 0 <= i < digits(n).len() ==> is_digit(#[trigger] digits(n)[i]),
        digits(n).len() == 1 || digits(n)[0] != '0',
        value_of(digits(n)) == n,
    decreases n,
{
    if n < 10 {
        lemma_digit_char(n);
        assert(digits(n).drop_last() =~= Seq::<char>::empty());
        assert(value_of(Seq::<char>::empty()) == 0);
        assert(value_of(digits(n)) == value_of(digits(n).drop_last()) * 10 + digit_value(digits(n).last()));
    } else {
        lemma_digits(n / 10);
        lemma_digit_char(n % 10);
        let d = digits(n);
        assert(d.drop_last() =~= digits(n / 10));
        assert(d.last() == digit_char(n % 10));
        assert(value_of(d) == value_of(digits(n / 10)) * 10 + digit_value(digit_char(n % 10)));
        assert((n / 10) * 10 + n % 10 == n);
        assert forall|i: int| 0 <= i < d.len() implies is_digit(#[trigger] d[i]) by {
            if i < d.len() - 1 {
                assert(d[i] == digits(n / 10)[i]);
            }
        }
        assert(d[0] == digits(n / 10)[0]);
        if digits(n / 10).len() == 1 {
            assert(n / 10 < 10) by {
                if n / 10 >= 10 {
                    lemma_digits_long(n / 10);
                }
            }
            lemma_digit_char(n / 10);
        }
    }
}

proof fn lemma_digits_long(n: nat)
    requires
        n >= 10,
    ensures
        digits(n).len() >= 2,
    decreases n,
{
    assert(digits(n).len() == digits(n / 10).len() + 1);
    if n / 10 >= 10 {
        lemma_digits_long(n / 10);
    } else {
        assert(digits(n / 10).len() == 1);
    }
}

/// Text of a digit below ten.
fn digit_str(d: usize) -> (r: &'static str)
    requires
        d < 10,
    ensures
        r@ == seq![digit_char(d as nat)],
{
    if d == 0 {
        proof { reveal_strlit("0"); }
        "0"
    } else if d == 1 {
        proof { reveal_strlit("1"); }
        "1"
    } else if d == 2 {
        proof { reveal_strlit("2"); }
        "2"
    } else if d == 3 {
        proof { reveal_strlit("3"); }
        "3"
    } else if d == 4 {
        proof { reveal_strlit("4"); }
        "4"
    } else if d == 5 {
        proof { reveal_strlit("5"); }
        "5"
    } else if d == 6 {
        proof { reveal_strlit("6"); }
        "6"
    } else if d == 7 {
        proof { reveal_strlit("7"); }
        "7"
    } else if d == 8 {
        proof { reveal_strlit("8"); }
        "8"
    } else {
        proof { reveal_strlit("9"); }
        "9"
    }
}

/// The decimal text of `n`.
pub fn usize_text(n: usize) -> (r: String)
    ensures
        r@ == digits(n as nat),
    decreases n,
{
    if n < 10 {
        String::from_str(digit_str(n))
    } else {
        let mut s = usize_text(n / 10);
        s.append(digit_str(n % 10));
        s
    }
}

/// A prefix of a string of digits never writes a larger number.
proof fn lemma_value_prefix(s: Seq<char>, k: int)
    requires
        0 <= k <= s.len(),
    ensures
        value_of(s.subrange(0, k)) <= value_of(s),
    decreases s.len(),
{
    if k == s.len() {
        assert(s.subrange(0, k) =~= s);
    } else {
        assert(s.drop_last().subrange(0, k) =~= s.subrange(0, k));
        lemma_value_prefix(s.drop_last(), k);
    }
}

/// `t` is a non-empty string of decimal digits whose value fits in `usize`.
pub open spec fn is_digits_usize(t: Seq<char>) -> bool {
    &&& t.len() > 0
    &&& forall|i: int| 0 <= i < t.len() ==> is_digit(#[trigger] t[i])
    &&& value_of(t) <= usize::MAX
}

/// Reads a canonical decimal number that fits in `usize`; `None` for any other text.
pub fn parse_usize(t: &str) -> (r: Option<usize>)
    ensures
        r == if is_canonical_usize(t@) { Some(value_of(t@) as usize) } else { None::<usize> },
{
    let n = t.unicode_len();
    if n > 1 && t.get_char(0) == '0' {
        return None;
    }
    parse_digits(t)
}

/// Reads a decimal number, leading zeros allowed, that fits in `usize`;
/// `None` for any other text.
pub fn parse_digits(t: &str) -> (r: Option<usize>)
    ensures
        r == if is_digits_usize(t@) { Some(value_of(t@) as usize) } else { None::<usize> },
{
    let n = t.unicode_len();
    if n == 0 {
        return None;
    }
    let mut v: usize = 0;
    let mut i: usize = 0;
    while i < n
        invariant
            n == t@.len(),
            i <= n,
            forall|j: int| 0 <= j < i ==> is_digit(#[trigger] t@[j]),
            v == value_of(t@.subrange(0, i as int)),
        decreases n - i,
    {
        let c = t.get_char(i);
        if !(c >= '0' && c <= '9') {
            return None;
        }
        let d: usize = ((c as u32) - ('0' as u32)) as usize;
        proof {
            assert(t@.subrange(0, i + 1).drop_last() =~= t@.subrange(0, i as int));
            assert(value_of(t@.subrange(0, i + 1)) == v * 10 + d);
        }
        if v > (usize::MAX - d) / 10 {
            proof {
                let q = (usize::MAX - d) / 10;
                assert(v * 10 + d > usize::MAX) by (nonlinear_arith)
                    requires v >= q + 1, q == (usize::MAX - d) / 10, 0 <= d <= 9;
                if forall|j: int| 0 <= j < n ==> is_digit(#[trigger] t@[j]) {
                    lemma_value_prefix(t@, i + 1);
                }
            }
            return None;
        }
        proof {
            let q = (usize::MAX - d) / 10;
            assert(v * 10 + d <= usize::MAX) by (nonlinear_arith)
                requires v <= q, q == (usize::MAX - d) / 10, 0 <= d <= 9;
        }
        v = v * 10 + d;
        i = i + 1;
    }
    proof {
        assert(t@.subrange(0, n as int) =~= t@);
    }
    Some(v)
}

/// The pieces of `s` between occurrences of `sep`, in order; a text without
/// `sep` is one piece, and each `sep` starts a new (possibly empty) piece.
pub open spec fn split(s: Seq<char>, sep: char) -> Seq<Seq<char>>
    decreases s.len(),
{
    if s.len() == 0 {
        seq![Seq::<char>::empty()]
    } else {
        let rest = split(s.drop_last(), sep);
        if s.last() == sep {
            rest.push(Seq::<char>::empty())
        } else {
            rest.update(rest.len() - 1, rest.last().push(s.last()))
        }
    }
}

/// The pieces written one after the other with `sep` between two neighbours.
pub open spec fn join(parts: Seq<Seq<char>>, sep: char) -> Seq<char>
    decreases parts.len(),
{
    if parts.len() == 0 {
        Seq::<char>::empty()
    } else if parts.len() == 1 {
        parts[0]
    } else {
        join(parts.drop_last(), sep) + seq![sep] + parts.last()
    }
}

pub open spec fn free_of(s: Seq<char>, c: char) -> bool {
    forall|i: int| 0 <= i < s.len() ==> #[trigger] s[i] != c
}

pub open spec fn all_free_of(parts: Seq<Seq<char>>, c: char) -> bool {
    forall|i: int| 0 <= i < parts.len() ==> free_of(#[trigger] parts[i], c)
}

pub proof fn lemma_split_nonempty(s: Seq<char>, sep: char)
    ensures
        split(s, sep).len() >= 1,
    decreases s.len(),
{
    if s.len() > 0 {
        lemma_split_nonempty(s.drop_last(), sep);
    }
}

/// A text without the separator is a single piece.
pub proof fn lemma_split_free(p: Seq<char>, sep: char)
    requires
        free_of(p, sep),
    ensures
        split(p, sep) == seq![p],
    decreases p.len(),
{
    if p.len() == 0 {
        assert(p =~= Seq::<char>::empty());
        assert(split(p, sep) =~= seq![p]);
    } else {
        lemma_split_free(p.drop_last(), sep);
        assert(p[p.len() - 1] != sep);
        let rest = split(p.drop_last(), sep);
        assert(rest == seq![p.drop_last()]);
        assert(split(p, sep) == rest.update(0, rest.last().push(p.last())));
        assert(p.drop_last().push(p.last()) =~= p);
        assert(split(p, sep) =~= seq![p]);
    }
}

/// Splitting at one separator splits both sides independently.
pub proof fn lemma_split_around(x: Seq<char>, y: Seq<char>, sep: char)
    ensures
        split(x + seq![sep] + y, sep) == split(x, sep) + split(y, sep),
    decreases y.len(),
{
    let s = x + seq![sep] + y;
    lemma_split_nonempty(x, sep);
    if y.len() == 0 {
        assert(s.drop_last() =~= x);
        assert(split(y, sep) =~= seq![Seq::<char>::empty()]);
        assert(split(s, sep) =~= split(x, sep) + split(y, sep));
    } else {
        let y0 = y.drop_last();
        lemma_split_around(x, y0, sep);
        lemma_split_nonempty(y0, sep);
        assert(s.drop_last() =~= x + seq![sep] + y0);
        assert(s.last() == y.last());
        let rx = split(x, sep);
        let ry0 = split(y0, sep);
        if y.last() == sep {
            assert(split(s, sep) =~= rx + split(y, sep));
        } else {
            let rest = rx + ry0;
            assert(rest.last() == ry0.last());
            assert(split(s, sep) =~= rx + split(y, sep));
        }
    }
}

/// Splitting joined pieces that do not hold the separator gives them back.
pub proof fn lemma_split_join(parts: Seq<Seq<char>>, sep: char)
    requires
        parts.len() >= 1,
        all_free_of(parts, sep),
    ensures
        split(join(parts, sep), sep) == parts,
    decreases parts.len(),
{
    if parts.len() == 1 {
        assert(free_of(parts[0], sep));
        lemma_split_free(parts[0], sep);
        assert(seq![parts[0]] =~= parts);
    } else {
        let init = parts.drop_last();
        assert forall|i: int| 0 <= i < init.len() implies free_of(#[trigger] init[i], sep) by {
            assert(init[i] == parts[i]);
        }
        lemma_split_join(init, sep);
        assert(free_of(parts[parts.len() - 1], sep));
        lemma_split_free(parts.last(), sep);
        lemma_split_around(join(init, sep), parts.last(), sep);
        assert(init + seq![parts.last()] =~= parts);
    }
}

/// Joining pieces free of `c` with a separator other than `c` stays free of `c`.
pub proof fn lemma_join_free(parts: Seq<Seq<char>>, sep: char, c: char)
    requires
        sep != c,
        all_free_of(parts, c),
    ensures
        free_of(join(parts, sep), c),
    decreases parts.len(),
{
    if parts.len() == 1 {
        assert(free_of(parts[0], c));
    } else if parts.len() > 1 {
        let init = parts.drop_last();
        assert forall|i: int| 0 <= i < init.len() implies free_of(#[trigger] init[i], c) by {
            assert(init[i] == parts[i]);
        }
        lemma_join_free(init, sep, c);
        assert(free_of(parts[parts.len() - 1], c));
        let j = join(parts, sep);
        let ji = join(init, sep);
        assert forall|i: int| 0 <= i < j.len() implies #[trigger] j[i] != c by {
            if i < ji.len() {
                assert(j[i] == ji[i]);
            } else if i == ji.len() {
                assert(j[i] == sep);
            } else {
                assert(j[i] == parts.last()[i - ji.len() - 1]);
            }
        }
    }
}

proof fn lemma_ascii_byte_eq(c: char, d: char)
    requires
        c <= '\u{7f}',
        d <= '\u{7f}',
    ensures
        (c as u8 == d as u8) == (c == d),
{
}

/// The pieces of an ASCII text between occurrences of the ASCII character `sep`.
pub fn split_ascii<'a>(s: &'a str, sep: char) -> (r: Vec<&'a str>)
    requires
        is_ascii(s),
        sep <= '\u{7f}',
    ensures
        r@.len() == split(s@, sep).len(),
        forall|k: int| 0 <= k < r@.len() ==> (#[trigger] r@[k])@ == split(s@, sep)[k] && is_ascii(r@[k]),
{
    let n = s.unicode_len();
    let sep_byte: u8 = sep as u8;
    let mut parts: Vec<&'a str> = Vec::new();
    let mut start: usize = 0;
    let mut i: usize = 0;
    while i < n
        invariant
            n == s@.len(),
            is_ascii(s),
            sep <= '\u{7f}',
            sep_byte == sep as u8,
            start <= i <= n,
            split(s@.subrange(0, i as int), sep).len() == parts@.len() + 1,
            forall|k: int| 0 <= k < parts@.len() ==> (#[trigger] parts@[k])@ == split(s@.subrange(0, i as int), sep)[k]
                && is_ascii(parts@[k]),
            split(s@.subrange(0, i as int), sep).last() == s@.subrange(start as int, i as int),
        decreases n - i,
    {
        let b = s.get_ascii(i);
        let ghost prefix = s@.subrange(0, i as int);
        let ghost next = s@.subrange(0, i + 1);
        proof {
            assert(next.drop_last() =~= prefix);
            assert(next.last() == s@[i as int]);
            lemma_ascii_byte_eq(s@[i as int], sep);
        }
        if b == sep_byte {
            let piece = s.substring_ascii(start, i);
            parts.push(piece);
            start = i + 1;
            proof {
                assert(s@.subrange(start as int, i + 1) =~= Seq::<char>::empty());
            }
        } else {
            proof {
                assert(s@.subrange(start as int, i + 1) =~= s@.subrange(start as int, i as int).push(s@[i as int]));
            }
        }
        i = i + 1;
    }
    let last = s.substring_ascii(start, n);
    parts.push(last);
    proof {
        assert(s@.subrange(0, n as int) =~= s@);
    }
    parts
}

} // verus!
