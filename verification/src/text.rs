//! Text as sequences of characters: the order in which names are listed, and
//! the hexadecimal form of a number.

use vstd::prelude::*;
use vstd::string::StrSliceExecFns;
use vstd::string::StringExecFns;
use vstd::utf8::encode_utf8;
use vstd::utf8::encode_utf8_decode_utf8;

verus! {

/// The characters of `s`, in order.
pub fn chars_of(s: &str) -> (v: Vec<char>)
    ensures
        v@ == s@,
{
    let mut v: Vec<char> = Vec::new();
    for c in it: s.chars()
        invariant
            it.seq() == s@,
            v@ == s@.take(it.index() as int),
    {
        v.push(c);
    }
    v
}

/// Whether `prefix` is how `s` begins.
pub fn starts_with(s: &str, prefix: &str) -> (r: bool)
    ensures
        r == prefix@.is_prefix_of(s@),
{
    let whole = chars_of(s);
    let head = chars_of(prefix);
    if head.len() > whole.len() {
        return false;
    }
    let mut i: usize = 0;
    while i < head.len()
        invariant
            i <= head.len() <= whole.len(),
            whole@ == s@,
            head@ == prefix@,
            forall|k: int| 0 <= k < i ==> whole@[k] == head@[k],
        decreases head.len() - i,
    {
        if whole[i] != head[i] {
            assert(s@.subrange(0, prefix@.len() as int)[i as int] != prefix@[i as int]);
            return false;
        }
        i += 1;
    }
    assert(s@.subrange(0, prefix@.len() as int) =~= prefix@);
    true
}

/// Byte strings in dictionary order: `a` comes strictly before `b`.
pub open spec fn lex_less(a: Seq<u8>, b: Seq<u8>) -> bool
    decreases a.len(),
{
    if b.len() == 0 {
        false
    } else if a.len() == 0 {
        true
    } else if a[0] != b[0] {
        a[0] < b[0]
    } else {
        lex_less(a.drop_first(), b.drop_first())
    }
}

/// The order of texts: that of their UTF-8 bytes, which is the order in which
/// Rust compares strings.
pub open spec fn text_precedes(a: Seq<char>, b: Seq<char>) -> bool {
    lex_less(encode_utf8(a), encode_utf8(b))
}

/// Nothing comes before itself.
pub proof fn lemma_lex_less_irreflexive(a: Seq<u8>)
    ensures
        !lex_less(a, a),
    decreases a.len(),
{
    if a.len() > 0 {
        lemma_lex_less_irreflexive(a.drop_first());
    }
}

/// The order is transitive.
pub proof fn lemma_lex_less_transitive(a: Seq<u8>, b: Seq<u8>, c: Seq<u8>)
    requires
        lex_less(a, b),
        lex_less(b, c),
    ensures
        lex_less(a, c),
    decreases a.len(),
{
    if a.len() > 0 && b.len() > 0 && c.len() > 0 && a[0] == b[0] && b[0] == c[0] {
        lemma_lex_less_transitive(a.drop_first(), b.drop_first(), c.drop_first());
    }
}

/// Of two different byte strings one comes before the other.
pub proof fn lemma_lex_less_connected(a: Seq<u8>, b: Seq<u8>)
    ensures
        a == b || lex_less(a, b) || lex_less(b, a),
    decreases a.len(),
{
    if a.len() > 0 && b.len() > 0 && a[0] == b[0] {
        lemma_lex_less_connected(a.drop_first(), b.drop_first());
        if a.drop_first() == b.drop_first() {
            assert(a =~= seq![a[0]] + a.drop_first());
            assert(b =~= seq![b[0]] + b.drop_first());
        }
    } else if a.len() == 0 && b.len() == 0 {
        assert(a =~= b);
    }
}

/// The order of texts is a strict total order.
pub proof fn lemma_text_order(a: Seq<char>, b: Seq<char>, c: Seq<char>)
    ensures
        !text_precedes(a, a),
        text_precedes(a, b) && text_precedes(b, c) ==> text_precedes(a, c),
        a == b || text_precedes(a, b) || text_precedes(b, a),
{
    lemma_lex_less_irreflexive(encode_utf8(a));
    if text_precedes(a, b) && text_precedes(b, c) {
        lemma_lex_less_transitive(encode_utf8(a), encode_utf8(b), encode_utf8(c));
    }
    lemma_lex_less_connected(encode_utf8(a), encode_utf8(b));
    encode_utf8_decode_utf8(a);
    encode_utf8_decode_utf8(b);
}

/// Whether `a` comes strictly before `b`.
pub fn precedes(a: &str, b: &str) -> (r: bool)
    ensures
        r == text_precedes(a@, b@),
{
    let x = a.as_bytes();
    let y = b.as_bytes();
    let mut i: usize = 0;
    assert(x@.skip(0) =~= x@ && y@.skip(0) =~= y@);
    while i < x.len() && i < y.len()
        invariant
            i <= x.len(),
            i <= y.len(),
            x@ == encode_utf8(a@),
            y@ == encode_utf8(b@),
            lex_less(x@, y@) == lex_less(x@.skip(i as int), y@.skip(i as int)),
        decreases x.len() - i,
    {
        let ghost xs = x@.skip(i as int);
        let ghost ys = y@.skip(i as int);
        assert(xs[0] == x@[i as int] && ys[0] == y@[i as int]);
        if x[i] != y[i] {
            return x[i] < y[i];
        }
        assert(xs.drop_first() =~= x@.skip(i + 1));
        assert(ys.drop_first() =~= y@.skip(i + 1));
        i += 1;
    }
    i < y.len()
}

/// The sixteen hexadecimal digits, lower case.
pub open spec fn hex_digit(d: nat) -> char
    recommends
        d < 16,
{
    seq!['0', '1', '2', '3', '4', '5', '6', '7', '8', '9', 'a', 'b', 'c', 'd', 'e', 'f'][d as int]
}

/// The hexadecimal digits of `n`, most significant first, without leading
/// zeros; for zero the one digit `0`.
pub open spec fn lower_hex(n: nat) -> Seq<char>
    decreases n,
{
    if n < 16 {
        seq![hex_digit(n)]
    } else {
        lower_hex(n / 16).push(hex_digit(n % 16))
    }
}

/// Different digits are written differently.
proof fn lemma_hex_digit_differs(d: nat, e: nat)
    requires
        d < 16,
        e < 16,
        hex_digit(d) == hex_digit(e),
    ensures
        d == e,
{
    let digits = seq![
        '0',
        '1',
        '2',
        '3',
        '4',
        '5',
        '6',
        '7',
        '8',
        '9',
        'a',
        'b',
        'c',
        'd',
        'e',
        'f',
    ];
    assert(digits[0] == '0' && digits[1] == '1' && digits[2] == '2' && digits[3] == '3');
    assert(digits[4] == '4' && digits[5] == '5' && digits[6] == '6' && digits[7] == '7');
    assert(digits[8] == '8' && digits[9] == '9' && digits[10] == 'a' && digits[11] == 'b');
    assert(digits[12] == 'c' && digits[13] == 'd' && digits[14] == 'e' && digits[15] == 'f');
}

/// Different numbers are written differently.
pub proof fn lemma_hex_differs(a: nat, b: nat)
    requires
        lower_hex(a) == lower_hex(b),
    ensures
        a == b,
    decreases a,
{
    if a < 16 && b < 16 {
        assert(lower_hex(a)[0] == hex_digit(a) && lower_hex(b)[0] == hex_digit(b));
        lemma_hex_digit_differs(a, b);
    } else if a >= 16 && b >= 16 {
        let x = lower_hex(a / 16);
        let y = lower_hex(b / 16);
        assert(lower_hex(a).last() == hex_digit(a % 16));
        assert(lower_hex(b).last() == hex_digit(b % 16));
        assert(lower_hex(a).drop_last() =~= x);
        assert(lower_hex(b).drop_last() =~= y);
        lemma_hex_digit_differs(a % 16, b % 16);
        lemma_hex_differs(a / 16, b / 16);
    } else if a < 16 {
        assert(lower_hex(b / 16).len() >= 1) by {
            lemma_hex_step(b / 16);
        }
        assert(lower_hex(a).len() == 1 && lower_hex(b).len() >= 2);
    } else {
        assert(lower_hex(a / 16).len() >= 1) by {
            lemma_hex_step(a / 16);
        }
        assert(lower_hex(b).len() == 1 && lower_hex(a).len() >= 2);
    }
}

/// The digits that stand before the last one.
spec fn hex_front(n: nat) -> Seq<char> {
    if n == 0 {
        Seq::empty()
    } else {
        lower_hex(n)
    }
}

/// Digits given least significant first, written most significant first.
spec fn digits_text(ds: Seq<u8>) -> Seq<char> {
    Seq::new(ds.len(), |i: int| hex_digit(ds[ds.len() - 1 - i] as nat))
}

proof fn lemma_hex_step(n: nat)
    ensures
        lower_hex(n) == hex_front(n / 16).push(hex_digit(n % 16)),
{
    if n < 16 {
        assert(n / 16 == 0);
        assert(n % 16 == n);
        assert(lower_hex(n) =~= hex_front(n / 16).push(hex_digit(n % 16)));
    }
}

/// The text `lower_hex(n)`.
pub fn to_lower_hex(n: u128) -> (s: String)
    ensures
        s@ == lower_hex(n as nat),
{
    let mut digits: Vec<u8> = Vec::new();
    digits.push((n % 16) as u8);
    let mut rest: u128 = n / 16;
    proof {
        lemma_hex_step(n as nat);
        assert(lower_hex(n as nat) =~= hex_front(rest as nat) + digits_text(digits@));
    }
    while rest > 0
        invariant
            digits.len() >= 1,
            forall|k: int| 0 <= k < digits.len() ==> digits[k] < 16,
            lower_hex(n as nat) == hex_front(rest as nat) + digits_text(digits@),
        decreases rest,
    {
        let ghost before = digits@;
        proof {
            lemma_hex_step(rest as nat);
        }
        digits.push((rest % 16) as u8);
        rest = rest / 16;
        assert(lower_hex(n as nat) =~= hex_front(rest as nat) + digits_text(digits@)) by {
            assert(digits_text(digits@) =~= seq![hex_digit(digits@.last() as nat)] + digits_text(
                before,
            ));
        }
    }
    let table = "0123456789abcdef";
    proof {
        reveal_strlit("0123456789abcdef");
    }
    let mut s = String::new();
    let mut i: usize = digits.len();
    while i > 0
        invariant
            i <= digits.len(),
            forall|k: int| 0 <= k < digits.len() ==> digits[k] < 16,
            table@ == "0123456789abcdef"@,
            s@ == digits_text(digits@).take(digits.len() - i),
        decreases i,
    {
        i -= 1;
        let d: usize = digits[i] as usize;
        proof {
            reveal_strlit("0123456789abcdef");
        }
        let one = table.substring_char(d, d + 1);
        assert(one@ =~= seq![hex_digit(d as nat)]);
        let ghost before = s@;
        s.append(one);
        assert(s@ =~= digits_text(digits@).take(digits.len() - i));
    }
    assert(s@ =~= digits_text(digits@));
    assert(hex_front(0) + digits_text(digits@) =~= digits_text(digits@));
    s
}

} // verus!
