//! Message identifiers.
//!
//! An identifier is a fixed-width base-36 rendering of the store clock in
//! epoch milliseconds, followed by random characters drawn from the same
//! alphabet. The prefix makes identifiers of different milliseconds sort
//! lexicographically in chronological order (`lemma_id_time_ordered`); the
//! suffix makes collisions on the same millisecond overwhelmingly unlikely
//! once the caller supplies enough entropy.

use vstd::prelude::*;
use vstd::arithmetic::div_mod::{
    lemma_div_is_ordered, lemma_fundamental_div_mod, lemma_multiply_divide_lt,
};

verus! {

/// Characters in the base-36 timestamp prefix of an identifier.
pub const ID_TIME_LEN: usize = 10;

/// Random characters appended after the timestamp prefix.
pub const ID_RANDOM_LEN: usize = 22;

/// `36^10`: the smallest epoch-millisecond value that no longer fits in the
/// ten-character base-36 prefix.
pub const ID_TIME_CEILING: u64 = 3_656_158_440_062_976;

/// The identifier alphabet, in strictly increasing character order.
pub open spec fn b36_alphabet() -> Seq<char> {
    "0123456789abcdefghijklmnopqrstuvwxyz"@
}

/// The character standing for the base-36 digit `d`.
pub open spec fn digit_char(d: int) -> char {
    b36_alphabet()[d]
}

/// `n` rendered in base 36, `w` characters wide, most significant first.
/// Values of `n` at or above `36^w` lose their highest digits.
pub open spec fn enc36(n: nat, w: nat) -> Seq<char>
    decreases w,
{
    if w == 0 {
        Seq::empty()
    } else {
        enc36(n / 36, (w - 1) as nat).push(digit_char((n % 36) as int))
    }
}

/// `36^w`.
pub open spec fn pow36(w: nat) -> nat
    decreases w,
{
    if w == 0 {
        1
    } else {
        36 * pow36((w - 1) as nat)
    }
}

/// Character order by code point.
pub open spec fn char_lt(a: char, b: char) -> bool {
    (a as u32) < (b as u32)
}

/// Strict lexicographic order on character sequences: a proper prefix
/// precedes its extensions.
pub open spec fn lex_lt(a: Seq<char>, b: Seq<char>) -> bool
    decreases a.len(),
{
    if b.len() == 0 {
        false
    } else if a.len() == 0 {
        true
    } else if a[0] == b[0] {
        lex_lt(a.drop_first(), b.drop_first())
    } else {
        char_lt(a[0], b[0])
    }
}

/// The random suffix: each entropy byte picks one alphabet character.
pub open spec fn suffix_of(entropy: Seq<u8>) -> Seq<char> {
    Seq::new(entropy.len(), |i: int| digit_char((entropy[i] % 36) as int))
}

/// The identifier built from a clock reading and entropy bytes.
pub open spec fn id_of(now_ms: u64, entropy: Seq<u8>) -> Seq<char> {
    enc36(now_ms as nat, ID_TIME_LEN as nat) + suffix_of(entropy)
}

pub proof fn lemma_enc36_len(n: nat, w: nat)
    ensures
        enc36(n, w).len() == w,
    decreases w,
{
    if w > 0 {
        lemma_enc36_len(n / 36, (w - 1) as nat);
    }
}

/// Digits of the alphabet are ordered like the values they stand for.
pub proof fn lemma_digit_order(d1: int, d2: int)
    requires
        0 <= d1 < d2 < 36,
    ensures
        char_lt(digit_char(d1), digit_char(d2)),
{
    reveal_strlit("0123456789abcdefghijklmnopqrstuvwxyz");
}

/// Appending anything to two equal-length ordered sequences keeps the order.
pub proof fn lemma_lex_lt_append(a: Seq<char>, b: Seq<char>, s1: Seq<char>, s2: Seq<char>)
    requires
        a.len() == b.len(),
        lex_lt(a, b),
    ensures
        lex_lt(a + s1, b + s2),
    decreases a.len(),
{
    assert(a.len() > 0);
    assert((a + s1)[0] == a[0]);
    assert((b + s2)[0] == b[0]);
    if a[0] == b[0] {
        lemma_lex_lt_append(a.drop_first(), b.drop_first(), s1, s2);
        assert((a + s1).drop_first() =~= a.drop_first() + s1);
        assert((b + s2).drop_first() =~= b.drop_first() + s2);
    }
}

/// Pushing ordered last characters onto one common prefix keeps the order.
pub proof fn lemma_lex_lt_push(p: Seq<char>, c1: char, c2: char)
    requires
        char_lt(c1, c2),
    ensures
        lex_lt(p.push(c1), p.push(c2)),
    decreases p.len(),
{
    if p.len() == 0 {
        assert(p.push(c1)[0] == c1);
        assert(p.push(c2)[0] == c2);
    } else {
        lemma_lex_lt_push(p.drop_first(), c1, c2);
        assert(p.push(c1)[0] == p[0]);
        assert(p.push(c2)[0] == p[0]);
        assert(p.push(c1).drop_first() =~= p.drop_first().push(c1));
        assert(p.push(c2).drop_first() =~= p.drop_first().push(c2));
    }
}

/// Lexicographic order is irreflexive.
pub proof fn lemma_lex_lt_irrefl(a: Seq<char>)
    ensures
        !lex_lt(a, a),
    decreases a.len(),
{
    if a.len() > 0 {
        lemma_lex_lt_irrefl(a.drop_first());
    }
}

/// Lexicographic order is transitive.
pub proof fn lemma_lex_lt_trans(a: Seq<char>, b: Seq<char>, c: Seq<char>)
    requires
        lex_lt(a, b),
        lex_lt(b, c),
    ensures
        lex_lt(a, c),
    decreases a.len(),
{
    if a.len() > 0 && a[0] == b[0] && b[0] == c[0] {
        lemma_lex_lt_trans(a.drop_first(), b.drop_first(), c.drop_first());
    }
}

/// Fixed-width base-36 rendering is strictly monotone below `36^w`.
pub proof fn lemma_enc36_monotone(n1: nat, n2: nat, w: nat)
    requires
        n1 < n2,
        n2 < pow36(w),
    ensures
        lex_lt(enc36(n1, w), enc36(n2, w)),
    decreases w,
{
    if w == 0 {
        assert(n2 < 1);
        assert(false);
    } else {
        let a1 = n1 / 36;
        let a2 = n2 / 36;
        let d1 = (n1 % 36) as int;
        let d2 = (n2 % 36) as int;
        lemma_fundamental_div_mod(n1 as int, 36);
        lemma_fundamental_div_mod(n2 as int, 36);
        lemma_div_is_ordered(n1 as int, n2 as int, 36);
        lemma_multiply_divide_lt(n2 as int, 36, pow36((w - 1) as nat) as int);
        lemma_enc36_len(a1, (w - 1) as nat);
        lemma_enc36_len(a2, (w - 1) as nat);
        if a1 == a2 {
            assert(d1 < d2);
            lemma_digit_order(d1, d2);
            lemma_lex_lt_push(enc36(a1, (w - 1) as nat), digit_char(d1), digit_char(d2));
        } else {
            lemma_enc36_monotone(a1, a2, (w - 1) as nat);
            lemma_lex_lt_append(
                enc36(a1, (w - 1) as nat),
                enc36(a2, (w - 1) as nat),
                seq![digit_char(d1)],
                seq![digit_char(d2)],
            );
            assert(enc36(a1, (w - 1) as nat).push(digit_char(d1)) =~= enc36(
                a1,
                (w - 1) as nat,
            ) + seq![digit_char(d1)]);
            assert(enc36(a2, (w - 1) as nat).push(digit_char(d2)) =~= enc36(
                a2,
                (w - 1) as nat,
            ) + seq![digit_char(d2)]);
        }
    }
}

/// Identifiers sort chronologically: whatever entropy each carries, an
/// identifier made on an earlier millisecond is lexicographically smaller
/// than one made on a later millisecond, as long as the clock fits the
/// fixed-width prefix.
pub proof fn lemma_id_time_ordered(t1: u64, t2: u64, e1: Seq<u8>, e2: Seq<u8>)
    requires
        t1 < t2,
        t2 < ID_TIME_CEILING,
    ensures
        lex_lt(id_of(t1, e1), id_of(t2, e2)),
{
    assert(pow36(10) == ID_TIME_CEILING) by {
        reveal_with_fuel(pow36, 11);
    }
    lemma_enc36_monotone(t1 as nat, t2 as nat, ID_TIME_LEN as nat);
    lemma_enc36_len(t1 as nat, ID_TIME_LEN as nat);
    lemma_enc36_len(t2 as nat, ID_TIME_LEN as nat);
    lemma_lex_lt_append(
        enc36(t1 as nat, ID_TIME_LEN as nat),
        enc36(t2 as nat, ID_TIME_LEN as nat),
        suffix_of(e1),
        suffix_of(e2),
    );
}

/// Compares two strings in the lexicographic code-point order that
/// [`lex_lt`] states.
pub fn str_lt(a: &str, b: &str) -> (r: bool)
    ensures
        r == lex_lt(a@, b@),
{
    let alen = a.unicode_len();
    let blen = b.unicode_len();
    let mut i: usize = 0;
    proof {
        assert(a@.subrange(0, alen as int) =~= a@);
        assert(b@.subrange(0, blen as int) =~= b@);
    }
    while i < alen && i < blen
        invariant
            i <= alen,
            i <= blen,
            alen == a@.len(),
            blen == b@.len(),
            lex_lt(a@, b@) == lex_lt(
                a@.subrange(i as int, alen as int),
                b@.subrange(i as int, blen as int),
            ),
        decreases alen - i,
    {
        let c1 = a.get_char(i);
        let c2 = b.get_char(i);
        if c1 != c2 {
            return (c1 as u32) < (c2 as u32);
        }
        proof {
            let x = a@.subrange(i as int, alen as int);
            let y = b@.subrange(i as int, blen as int);
            assert(x[0] == y[0]);
            assert(x.drop_first() =~= a@.subrange(i + 1, alen as int));
            assert(y.drop_first() =~= b@.subrange(i + 1, blen as int));
        }
        i = i + 1;
    }
    i < blen
}

/// The one-character string standing for the base-36 digit `d`.
fn digit_str(d: u64) -> (r: &'static str)
    requires
        d < 36,
    ensures
        r@ =~= seq![digit_char(d as int)],
{
    proof {
        reveal_strlit("0123456789abcdefghijklmnopqrstuvwxyz");
    }
    let digits: &'static str = "0123456789abcdefghijklmnopqrstuvwxyz";
    assert(digits.is_ascii());
    let r = digits.substring_ascii(d as usize, d as usize + 1);
    assert(r@ =~= seq![digit_char(d as int)]);
    r
}

/// `n` in base 36, `w` characters wide, most significant first.
fn enc36_exec(n: u64, w: usize) -> (s: String)
    ensures
        s@ == enc36(n as nat, w as nat),
    decreases w,
{
    if w == 0 {
        String::new()
    } else {
        let mut s = enc36_exec(n / 36, w - 1);
        s.append(digit_str(n % 36));
        proof {
            assert(s@ =~= enc36(n as nat, w as nat));
        }
        s
    }
}

/// Builds a message identifier from the store clock (epoch milliseconds)
/// and caller-supplied entropy bytes: a ten-character base-36 timestamp
/// followed by one alphabet character per entropy byte.
pub fn make_id(now_ms: u64, entropy: &Vec<u8>) -> (id: String)
    ensures
        id@ == id_of(now_ms, entropy@),
        id@.len() == ID_TIME_LEN + entropy@.len(),
{
    let mut s = enc36_exec(now_ms, ID_TIME_LEN);
    proof {
        lemma_enc36_len(now_ms as nat, ID_TIME_LEN as nat);
    }
    let mut i: usize = 0;
    while i < entropy.len()
        invariant
            i <= entropy@.len(),
            s@ =~= enc36(now_ms as nat, ID_TIME_LEN as nat) + suffix_of(
                entropy@.subrange(0, i as int),
            ),
        decreases entropy@.len() - i,
    {
        let d: u8 = entropy[i] % 36;
        s.append(digit_str(d as u64));
        i = i + 1;
        proof {
            assert(s@ =~= enc36(now_ms as nat, ID_TIME_LEN as nat) + suffix_of(
                entropy@.subrange(0, i as int),
            ));
        }
    }
    proof {
        assert(entropy@.subrange(0, entropy@.len() as int) =~= entropy@);
        lemma_enc36_len(now_ms as nat, ID_TIME_LEN as nat);
    }
    s
}

} // verus!
