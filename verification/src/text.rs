//! Numbers in decimal, and dotted IPv4 addresses.

use vstd::prelude::*;

verus! {

/// The decimal digit of `d`.
pub open spec fn digit(d: nat) -> char {
    (48 + d) as char
}

/// `n` in decimal, without leading zeros.
pub open spec fn decimal(n: nat) -> Seq<char>
    decreases n,
{
    if n < 10 {
        seq![digit(n)]
    } else {
        decimal(n / 10).push(digit(n % 10))
    }
}

/// `n` in decimal, with a sign where it is negative.
pub open spec fn signed_decimal(n: int) -> Seq<char> {
    if n < 0 {
        seq!['-'] + decimal((-n) as nat)
    } else {
        decimal(n as nat)
    }
}

/// Appends a decimal digit.
fn push_digit(out: &mut String, d: u64)
    requires
        d < 10,
    ensures
        final(out)@ == old(out)@.push(digit(d as nat)),
{
    proof {
        reveal_strlit("0");
        reveal_strlit("1");
        reveal_strlit("2");
        reveal_strlit("3");
        reveal_strlit("4");
        reveal_strlit("5");
        reveal_strlit("6");
        reveal_strlit("7");
        reveal_strlit("8");
        reveal_strlit("9");
    }
    let text = match d {
        0 => "0",
        1 => "1",
        2 => "2",
        3 => "3",
        4 => "4",
        5 => "5",
        6 => "6",
        7 => "7",
        8 => "8",
        _ => "9",
    };
    out.append(text);
    assert(out@ =~= old(out)@.push(digit(d as nat)));
}

/// Appends `n` in decimal.
pub fn push_decimal(out: &mut String, n: u64)
    ensures
        final(out)@ == old(out)@ + decimal(n as nat),
    decreases n,
{
    if n >= 10 {
        push_decimal(out, n / 10);
    }
    push_digit(out, n % 10);
    assert(out@ =~= old(out)@ + decimal(n as nat));
}

/// Appends `n` in decimal, with a sign where it is negative.
pub fn push_signed(out: &mut String, n: i32)
    ensures
        final(out)@ == old(out)@ + signed_decimal(n as int),
{
    if n < 0 {
        proof {
            reveal_strlit("-");
        }
        out.append("-");
        push_decimal(out, (-(n as i64)) as u64);
        assert("-"@ =~= seq!['-']);
        assert(out@ =~= old(out)@ + signed_decimal(n as int));
    } else {
        push_decimal(out, n as u64);
    }
}

/// A truth value in words.
pub open spec fn truth(value: bool) -> Seq<char> {
    if value {
        "true"@
    } else {
        "false"@
    }
}

/// Appends a truth value.
pub fn push_truth(out: &mut String, value: bool)
    ensures
        final(out)@ == old(out)@ + truth(value),
{
    if value {
        out.append("true");
    } else {
        out.append("false");
    }
}

/// Bytes in decimal, with commas between them.
pub open spec fn listed(bytes: Seq<u8>) -> Seq<char>
    decreases bytes.len(),
{
    if bytes.len() == 0 {
        Seq::empty()
    } else if bytes.len() == 1 {
        decimal(bytes[0] as nat)
    } else {
        listed(bytes.drop_last()) + ", "@ + decimal(bytes.last() as nat)
    }
}

/// Appends bytes in decimal, with commas between them.
pub fn push_listed(out: &mut String, bytes: &[u8])
    ensures
        final(out)@ == old(out)@ + listed(bytes@),
{
    let ghost before = out@;
    let mut i: usize = 0;
    assert(out@ =~= before + listed(bytes@.take(0)));
    while i < bytes.len()
        invariant
            i <= bytes@.len(),
            out@ == before + listed(bytes@.take(i as int)),
        decreases bytes@.len() - i,
    {
        let ghost was = out@;
        if i > 0 {
            out.append(", ");
        }
        push_decimal(out, bytes[i] as u64);
        proof {
            let next = bytes@.take(i + 1);
            assert(next.drop_last() =~= bytes@.take(i as int));
            assert(out@ =~= before + listed(next));
        }
        i = i + 1;
    }
    assert(bytes@.take(i as int) =~= bytes@);
}

/// Whether `s` is an IPv4 address: four numbers up to 255 in decimal, with dots between them.
pub open spec fn is_ipv4(s: Seq<char>) -> bool {
    exists|a: u8, b: u8, c: u8, d: u8| s == #[trigger] dotted(a, b, c, d)
}

/// Four numbers in decimal, with dots between them.
pub open spec fn dotted(a: u8, b: u8, c: u8, d: u8) -> Seq<char> {
    decimal(a as nat) + seq!['.'] + decimal(b as nat) + seq!['.'] + decimal(c as nat) + seq!['.']
        + decimal(d as nat)
}

/// Whether `c` is a decimal digit.
pub open spec fn is_digit(c: char) -> bool {
    '0' <= c <= '9'
}

/// The characters of a string.
fn chars_of(s: &str) -> (r: Vec<char>)
    ensures
        r@ == s@,
{
    let mut r: Vec<char> = Vec::new();
    for c in it: s.chars()
        invariant
            it.seq() == s@,
            r@ == s@.take(it.index() as int),
    {
        r.push(c);
        assert(r@ =~= s@.take(it.index() as int + 1));
    }
    assert(s@.take(s@.len() as int) =~= s@);
    r
}

/// Whether the digits of `s` from `i` on, as far as they go, end at `j` and are `v` in decimal.
spec fn octet_at(s: Seq<char>, i: int, v: u8, j: int) -> bool {
    &&& 0 <= i < j <= s.len()
    &&& s.subrange(i, j) == decimal(v as nat)
    &&& j == s.len() || !is_digit(s[j])
}

/// The digits of a number up to 255.
proof fn lemma_octet_digits(v: u8)
    ensures
        ({
            let d = decimal(v as nat);
            &&& forall|k: int| 0 <= k < d.len() ==> is_digit(#[trigger] d[k])
            &&& v < 10 ==> d.len() == 1 && d[0] == digit(v as nat)
            &&& 10 <= v < 100 ==> d.len() == 2 && d[0] == digit((v / 10) as nat) && d[1] == digit(
                (v % 10) as nat,
            )
            &&& 100 <= v ==> d.len() == 3 && d[0] == digit((v / 100) as nat) && d[1] == digit(
                (v / 10 % 10) as nat,
            ) && d[2] == digit((v % 10) as nat)
        }),
{
    reveal_with_fuel(decimal, 4);
}

/// The digits at a place are one number, with one end.
proof fn lemma_octet_unique(s: Seq<char>, i: int, v: u8, j: int, w: u8, k: int)
    requires
        octet_at(s, i, v, j),
        octet_at(s, i, w, k),
    ensures
        v == w,
        j == k,
{
    lemma_octet_digits(v);
    lemma_octet_digits(w);
    let dv = decimal(v as nat);
    let dw = decimal(w as nat);
    if j < k {
        assert(dw[j - i] == s[j]);
    }
    if k < j {
        assert(dv[k - i] == s[k]);
    }
    assert(dv == dw);
}

/// Reads a number up to 255 from `i` on, and where it ends. As many digits as there are
/// belong to the number.
fn read_octet(s: &Vec<char>, i: usize) -> (r: Option<(u8, usize)>)
    requires
        i <= s@.len(),
    ensures
        match r {
            Some((v, j)) => octet_at(s@, i as int, v, j as int),
            None => forall|v: u8, j: int| !octet_at(s@, i as int, v, j),
        },
{
    let mut n: u32 = 0;
    let mut j: usize = i;
    while j < s.len() && j - i < 4 && '0' <= s[j] && s[j] <= '9'
        invariant
            i <= j <= s@.len(),
            j - i <= 4,
            forall|k: int| i <= k < j ==> is_digit(#[trigger] s@[k]),
            j - i == 0 ==> n == 0,
            j - i == 1 ==> n == s@[i as int] as u32 - 48,
            j - i == 2 ==> n == 10 * (s@[i as int] as u32 - 48) + (s@[i + 1] as u32 - 48),
            j - i == 3 ==> n == 100 * (s@[i as int] as u32 - 48) + 10 * (s@[i + 1] as u32 - 48) + (
            s@[i + 2] as u32 - 48),
            n <= 9999,
            j - i < 4 ==> n <= 999,
        decreases s@.len() - j,
    {
        n = 10 * n + (s[j] as u32 - 48);
        j = j + 1;
    }
    proof {
        assert forall|v: u8, k: int| octet_at(s@, i as int, v, k) implies j - i <= 3 && k == j by {
            lemma_octet_digits(v);
            let d = decimal(v as nat);
            if k < j {
                assert(is_digit(s@[k]));
            }
            if j < k {
                assert(d[j - i] == s@[j as int]);
            }
        }
    }
    if j == i || j - i > 3 {
        return None;
    }
    proof {
        assert forall|v: u8, k: int| octet_at(s@, i as int, v, k) implies v == n && !(j - i > 1
            && s@[i as int] == '0') by {
            lemma_octet_digits(v);
            let d = decimal(v as nat);
            assert(d[0] == s@[i as int]);
            if j - i > 1 {
                assert(d[1] == s@[i + 1]);
            }
            if j - i > 2 {
                assert(d[2] == s@[i + 2]);
            }
        }
    }
    if j - i > 1 && s[i] == '0' {
        return None;
    }
    if n > 255 {
        return None;
    }
    proof {
        lemma_octet_digits(n as u8);
        assert(s@.subrange(i as int, j as int) =~= decimal(n as nat));
    }
    Some((n as u8, j))
}

/// Whether the text is an IPv4 address.
pub(crate) fn parses_as_ipv4(text: &str) -> (r: bool)
    ensures
        r == is_ipv4(text@),
{
    let s = chars_of(text);
    proof {
        assert forall|a: u8, b: u8, c: u8, d: u8| s@ == #[trigger] dotted(a, b, c, d) implies ({
            let i = decimal(a as nat).len() as int;
            let j = i + 1 + decimal(b as nat).len();
            let k = j + 1 + decimal(c as nat).len();
            &&& octet_at(s@, 0, a, i)
            &&& s@[i] == '.'
            &&& octet_at(s@, i + 1, b, j)
            &&& s@[j] == '.'
            &&& octet_at(s@, j + 1, c, k)
            &&& s@[k] == '.'
            &&& octet_at(s@, k + 1, d, s@.len() as int)
        }) by {
            lemma_octet_digits(a);
            lemma_octet_digits(b);
            lemma_octet_digits(c);
            lemma_octet_digits(d);
            let i = decimal(a as nat).len() as int;
            let j = i + 1 + decimal(b as nat).len();
            let k = j + 1 + decimal(c as nat).len();
            assert(s@.subrange(0, i) =~= decimal(a as nat));
            assert(s@.subrange(i + 1, j) =~= decimal(b as nat));
            assert(s@.subrange(j + 1, k) =~= decimal(c as nat));
            assert(s@.subrange(k + 1, s@.len() as int) =~= decimal(d as nat));
        }
    }
    let (a, i) = match read_octet(&s, 0) {
        Some(v) => v,
        None => {
            return false;
        },
    };
    proof {
        assert forall|b: u8, j: int| octet_at(s@, 0, b, j) implies b == a && j == i by {
            lemma_octet_unique(s@, 0, b, j, a, i as int);
        }
    }
    if i == s.len() || s[i] != '.' {
        return false;
    }
    let (b, j) = match read_octet(&s, i + 1) {
        Some(v) => v,
        None => {
            return false;
        },
    };
    proof {
        let from: int = i + 1;
        assert forall|c: u8, k: int| octet_at(s@, from, c, k) implies c == b && k == j by {
            lemma_octet_unique(s@, i + 1, c, k, b, j as int);
        }
    }
    if j == s.len() || s[j] != '.' {
        return false;
    }
    let (c, k) = match read_octet(&s, j + 1) {
        Some(v) => v,
        None => {
            return false;
        },
    };
    proof {
        let from: int = j + 1;
        assert forall|d: u8, l: int| octet_at(s@, from, d, l) implies d == c && l == k by {
            lemma_octet_unique(s@, j + 1, d, l, c, k as int);
        }
    }
    if k == s.len() || s[k] != '.' {
        return false;
    }
    let (d, l) = match read_octet(&s, k + 1) {
        Some(v) => v,
        None => {
            return false;
        },
    };
    proof {
        let from: int = k + 1;
        assert forall|e: u8, m: int| octet_at(s@, from, e, m) implies e == d && m == l by {
            lemma_octet_unique(s@, k + 1, e, m, d, l as int);
        }
        if l == s@.len() {
            assert(s@ =~= dotted(a, b, c, d));
        }
    }
    l == s.len()
}

// ---------------------------------------------------------------------------
// Laws
// ---------------------------------------------------------------------------

/// The number that decimal digits write down.
pub open spec fn number(digits: Seq<char>) -> nat
    decreases digits.len(),
{
    if digits.len() == 0 {
        0
    } else {
        10 * number(digits.drop_last()) + (digits.last() as int - '0' as int) as nat
    }
}

/// A number in decimal is digits that write it down, without leading zeros.
pub proof fn law_decimal_writes_the_number(n: nat)
    ensures
        number(decimal(n)) == n,
        decimal(n).len() > 0,
        forall|i: int| 0 <= i < decimal(n).len() ==> '0' <= #[trigger] decimal(n)[i] <= '9',
        decimal(n).len() > 1 ==> decimal(n)[0] != '0',
    decreases n,
{
    reveal_with_fuel(number, 2);
    if n < 10 {
        assert(decimal(n).drop_last() =~= Seq::<char>::empty());
    } else {
        law_decimal_writes_the_number(n / 10);
        assert(decimal(n).drop_last() =~= decimal(n / 10));
    }
}

/// A signed number in decimal is that of its size, behind a sign exactly where it is negative.
pub proof fn law_signed_decimal_has_a_sign(n: int)
    ensures
        n >= 0 ==> signed_decimal(n) == decimal(n as nat),
        n < 0 ==> signed_decimal(n).len() > 1 && signed_decimal(n)[0] == '-' && signed_decimal(
            n,
        ).skip(1) == decimal((-n) as nat),
{
    if n < 0 {
        law_decimal_writes_the_number((-n) as nat);
        assert(signed_decimal(n).skip(1) =~= decimal((-n) as nat));
    }
}

/// No bytes are listed as nothing, one byte as its number, and of two series the second behind
/// the first and a comma.
pub proof fn law_lists_are_in_order(byte: u8, a: Seq<u8>, b: Seq<u8>)
    requires
        a.len() > 0,
        b.len() > 0,
    ensures
        listed(Seq::empty()) == Seq::<char>::empty(),
        listed(seq![byte]) == decimal(byte as nat),
        listed(a + b) == listed(a) + ", "@ + listed(b),
    decreases b.len(),
{
    let before = b.drop_last();
    assert((a + b).drop_last() =~= a + before);
    if before.len() == 0 {
        assert(a + before =~= a);
    } else {
        law_lists_are_in_order(byte, a, before);
    }
    assert(listed(a + b) =~= listed(a) + ", "@ + listed(b));
}

/// Whether `s` is a number up to 255 in decimal: one to three digits, the first of which is zero
/// only where it is the only one, and which write down no more than 255.
pub open spec fn is_octet(s: Seq<char>) -> bool {
    &&& 1 <= s.len() <= 3
    &&& forall|i: int| 0 <= i < s.len() ==> '0' <= #[trigger] s[i] <= '9'
    &&& s.len() > 1 ==> s[0] != '0'
    &&& number(s) <= 255
}

/// Whether dots at `i`, `j` and `k` cut `s` into four numbers up to 255.
pub open spec fn is_cut_by_dots(s: Seq<char>, i: int, j: int, k: int) -> bool {
    &&& 0 <= i < j < k < s.len()
    &&& s[i] == '.' && s[j] == '.' && s[k] == '.'
    &&& is_octet(s.subrange(0, i))
    &&& is_octet(s.subrange(i + 1, j))
    &&& is_octet(s.subrange(j + 1, k))
    &&& is_octet(s.subrange(k + 1, s.len() as int))
}

/// An IPv4 address is exactly four numbers up to 255 with a dot between each two.
pub proof fn law_addresses_are_four_numbers(s: Seq<char>)
    ensures
        is_ipv4(s) <==> exists|i: int, j: int, k: int| is_cut_by_dots(s, i, j, k),
{
    if is_ipv4(s) {
        let (a, b, c, d) = choose|a: u8, b: u8, c: u8, d: u8| s == #[trigger] dotted(a, b, c, d);
        lemma_dotted_is_cut(a, b, c, d);
    }
    if exists|i: int, j: int, k: int| is_cut_by_dots(s, i, j, k) {
        let (i, j, k) = choose|i: int, j: int, k: int| is_cut_by_dots(s, i, j, k);
        lemma_cut_is_dotted(s, i, j, k);
    }
}

/// Four numbers with dots between them are cut by these.
proof fn lemma_dotted_is_cut(a: u8, b: u8, c: u8, d: u8)
    ensures
        exists|i: int, j: int, k: int| is_cut_by_dots(dotted(a, b, c, d), i, j, k),
{
    let s = dotted(a, b, c, d);
    let i = decimal(a as nat).len() as int;
    let j = i + 1 + decimal(b as nat).len();
    let k = j + 1 + decimal(c as nat).len();
    lemma_octet_of(a);
    lemma_octet_of(b);
    lemma_octet_of(c);
    lemma_octet_of(d);
    assert(s.subrange(0, i) =~= decimal(a as nat));
    assert(s.subrange(i + 1, j) =~= decimal(b as nat));
    assert(s.subrange(j + 1, k) =~= decimal(c as nat));
    assert(s.subrange(k + 1, s.len() as int) =~= decimal(d as nat));
    assert(is_cut_by_dots(s, i, j, k));
}

/// What dots cut into four numbers is these with dots between them.
proof fn lemma_cut_is_dotted(s: Seq<char>, i: int, j: int, k: int)
    requires
        is_cut_by_dots(s, i, j, k),
    ensures
        is_ipv4(s),
{
    let a = s.subrange(0, i);
    let b = s.subrange(i + 1, j);
    let c = s.subrange(j + 1, k);
    let d = s.subrange(k + 1, s.len() as int);
    lemma_octet_is_decimal(a);
    lemma_octet_is_decimal(b);
    lemma_octet_is_decimal(c);
    lemma_octet_is_decimal(d);
    let joint = a + seq!['.'] + b + seq!['.'] + c + seq!['.'] + d;
    assert(s =~= joint);
    assert(joint == dotted(number(a) as u8, number(b) as u8, number(c) as u8, number(d) as u8));
}

/// A number up to 255 in decimal is one.
proof fn lemma_octet_of(v: u8)
    ensures
        is_octet(decimal(v as nat)),
{
    law_decimal_writes_the_number(v as nat);
    lemma_octet_digits(v);
}

/// Digits that write down a number up to 255 are that number in decimal.
proof fn lemma_octet_is_decimal(s: Seq<char>)
    requires
        is_octet(s),
    ensures
        s == decimal(number(s)),
{
    reveal_with_fuel(number, 4);
    reveal_with_fuel(decimal, 4);
    let one = s.drop_last();
    let two = one.drop_last();
    if s.len() == 1 {
        assert(one.len() == 0);
    } else if s.len() == 2 {
        assert(two.len() == 0);
        assert(one.last() == s[0]);
    } else {
        assert(two.drop_last().len() == 0);
        assert(one.last() == s[1] && two.last() == s[0]);
    }
    assert(s =~= decimal(number(s)));
}

} // verus!
