//! Text on which the naming rules rest: decimal numerals, and the order of
//! names by their bytes.

use vstd::prelude::*;
use vstd::utf8::*;

verus! {

/// The outcome of comparing two values.
#[derive(Clone, Copy, Debug, PartialEq, Eq, Structural)]
pub enum Precedence {
    Lower,
    Equal,
    Higher,
}

/// The numeral of a digit.
pub open spec fn digit_char(d: nat) -> char {
    if d == 0 {
        '0'
    } else if d == 1 {
        '1'
    } else if d == 2 {
        '2'
    } else if d == 3 {
        '3'
    } else if d == 4 {
        '4'
    } else if d == 5 {
        '5'
    } else if d == 6 {
        '6'
    } else if d == 7 {
        '7'
    } else if d == 8 {
        '8'
    } else {
        '9'
    }
}

/// The decimal numeral of `n`, without leading zeros.
pub open spec fn decimal(n: nat) -> Seq<char>
    decreases n,
{
    if n < 10 {
        seq![digit_char(n)]
    } else {
        decimal(n / 10).push(digit_char(n % 10))
    }
}

fn digit_text(d: u64) -> (text: &'static str)
    requires
        d < 10,
    ensures
        text@ == seq![digit_char(d as nat)],
{
    proof {
        reveal_strlit("0");
        reveal_strlit("1");
        reveal_strlit("2");
        reveal_strlit("3");
        reveal_strlit("4");
        reveal_strlit("5");
        reveal_strlit("6");
        reveal_strlit("7");
        reveal_strlit("8");
        reveal_strlit("9");
    }
    let text = if d == 0 {
        "0"
    } else if d == 1 {
        "1"
    } else if d == 2 {
        "2"
    } else if d == 3 {
        "3"
    } else if d == 4 {
        "4"
    } else if d == 5 {
        "5"
    } else if d == 6 {
        "6"
    } else if d == 7 {
        "7"
    } else if d == 8 {
        "8"
    } else {
        "9"
    };
    text
}

/// Appends the decimal numeral of `n` to `out`.
pub fn push_decimal(out: &mut String, n: u64)
    ensures
        final(out)@ == old(out)@ + decimal(n as nat),
    decreases n,
{
    if n >= 10 {
        push_decimal(out, n / 10);
    }
    out.append(digit_text(n % 10));
}

/// Whether `a` and `b` agree on their first `i` bytes and `a` then ends, or
/// goes on with a smaller byte than `b`.
pub open spec fn parts_at(a: Seq<u8>, b: Seq<u8>, i: int) -> bool {
    &&& 0 <= i <= a.len()
    &&& i <= b.len()
    &&& a.subrange(0, i) == b.subrange(0, i)
    &&& if i == a.len() {
        i < b.len()
    } else {
        i < b.len() && a[i] < b[i]
    }
}

/// Whether `a` comes strictly before `b` in the order of byte strings: at
/// the first place where they differ `a` has the smaller byte, or `a` is a
/// proper prefix of `b`.
pub open spec fn bytes_before(a: Seq<u8>, b: Seq<u8>) -> bool {
    exists|i: int| parts_at(a, b, i)
}

/// Whether the name `a` comes strictly before the name `b`: the order of
/// their UTF-8 encodings, which is the order in which strings compare.
pub open spec fn name_before(a: Seq<char>, b: Seq<char>) -> bool {
    bytes_before(encode_utf8(a), encode_utf8(b))
}

/// Of two byte strings at most one comes before the other, and none before
/// itself.
pub proof fn lemma_bytes_before_is_asymmetric(a: Seq<u8>, b: Seq<u8>)
    requires
        bytes_before(a, b),
    ensures
        !bytes_before(b, a),
        a != b,
{
    let i = choose|i: int| parts_at(a, b, i);
    if bytes_before(b, a) {
        let j = choose|j: int| parts_at(b, a, j);
        if i < j {
            assert(b.subrange(0, j)[i] == a.subrange(0, j)[i]);
        } else if j < i {
            assert(a.subrange(0, i)[j] == b.subrange(0, i)[j]);
        }
    }
}

/// The order of byte strings is transitive.
pub proof fn lemma_bytes_before_is_transitive(a: Seq<u8>, b: Seq<u8>, c: Seq<u8>)
    requires
        bytes_before(a, b),
        bytes_before(b, c),
    ensures
        bytes_before(a, c),
{
    let i = choose|i: int| parts_at(a, b, i);
    let j = choose|j: int| parts_at(b, c, j);
    let m = if i <= j {
        i
    } else {
        j
    };
    assert(a.subrange(0, m) =~= c.subrange(0, m));
    if i < j {
        assert(b.subrange(0, j)[i] == c.subrange(0, j)[i]);
    } else if j < i {
        assert(a.subrange(0, i)[j] == b.subrange(0, i)[j]);
    }
    assert(parts_at(a, c, m));
}

/// A byte string comes before each of its proper extensions.
pub proof fn lemma_prefix_comes_before(a: Seq<u8>, rest: Seq<u8>)
    requires
        rest.len() > 0,
    ensures
        bytes_before(a, a + rest),
{
    assert((a + rest).subrange(0, a.len() as int) =~= a.subrange(0, a.len() as int));
    assert(parts_at(a, a + rest, a.len() as int));
}

/// The encoding of a text that is put together from two parts is put
/// together from their encodings.
pub proof fn lemma_encoding_of_concat(a: Seq<char>, b: Seq<char>)
    ensures
        encode_utf8(a + b) == encode_utf8(a) + encode_utf8(b),
    decreases a.len(),
{
    if a.len() == 0 {
    } else {
        lemma_encoding_of_concat(a.drop_first(), b);
        assert((a + b).drop_first() =~= a.drop_first() + b);
    }
}

/// The encoding of a text that is not empty is not empty.
pub proof fn lemma_encoding_is_not_empty(a: Seq<char>)
    requires
        a.len() > 0,
    ensures
        encode_utf8(a).len() > 0,
{
}

/// Two names with the same encoding are the same name.
pub proof fn lemma_encoding_is_injective(a: Seq<char>, b: Seq<char>)
    requires
        encode_utf8(a) == encode_utf8(b),
    ensures
        a == b,
{
    encode_utf8_decode_utf8(a);
    encode_utf8_decode_utf8(b);
}

/// A name comes before every name that extends it.
pub proof fn lemma_name_before_extension(name: Seq<char>, rest: Seq<char>)
    requires
        rest.len() > 0,
    ensures
        name_before(name, name + rest),
{
    lemma_encoding_of_concat(name, rest);
    lemma_encoding_is_not_empty(rest);
    lemma_prefix_comes_before(encode_utf8(name), encode_utf8(rest));
}

/// What comparing two byte strings gives.
pub open spec fn bytes_precedence(a: Seq<u8>, b: Seq<u8>) -> Precedence {
    if bytes_before(a, b) {
        Precedence::Lower
    } else if a == b {
        Precedence::Equal
    } else {
        Precedence::Higher
    }
}

/// What comparing two names gives.
pub open spec fn name_precedence(a: Seq<char>, b: Seq<char>) -> Precedence {
    bytes_precedence(encode_utf8(a), encode_utf8(b))
}

/// Of two different byte strings one comes before the other.
pub proof fn lemma_bytes_before_is_total(a: Seq<u8>, b: Seq<u8>)
    requires
        a != b,
    ensures
        bytes_before(a, b) || bytes_before(b, a),
    decreases a.len(),
{
    if a.len() == 0 {
        if b.len() == 0 {
            assert(a =~= b);
        }
        assert(a.subrange(0, 0) =~= b.subrange(0, 0));
        assert(parts_at(a, b, 0));
    } else if b.len() == 0 {
        assert(a.subrange(0, 0) =~= b.subrange(0, 0));
        assert(parts_at(b, a, 0));
    } else if a[0] != b[0] {
        assert(a.subrange(0, 0) =~= b.subrange(0, 0));
        if a[0] < b[0] {
            assert(parts_at(a, b, 0));
        }
    } else {
        let a1 = a.drop_first();
        let b1 = b.drop_first();
        if a1 == b1 {
            assert(a =~= seq![a[0]] + a1);
            assert(b =~= seq![b[0]] + b1);
        }
        lemma_bytes_before_is_total(a1, b1);
        if bytes_before(a1, b1) {
            let i = choose|i: int| parts_at(a1, b1, i);
            assert forall|k: int| 0 <= k < i + 1 implies a[k] == b[k] by {
                if k > 0 {
                    assert(a1.subrange(0, i)[k - 1] == b1.subrange(0, i)[k - 1]);
                }
            }
            assert(a.subrange(0, i + 1) =~= b.subrange(0, i + 1));
            assert(parts_at(a, b, i + 1));
        } else {
            let i = choose|i: int| parts_at(b1, a1, i);
            assert forall|k: int| 0 <= k < i + 1 implies a[k] == b[k] by {
                if k > 0 {
                    assert(a1.subrange(0, i)[k - 1] == b1.subrange(0, i)[k - 1]);
                }
            }
            assert(b.subrange(0, i + 1) =~= a.subrange(0, i + 1));
            assert(parts_at(b, a, i + 1));
        }
    }
}

/// Compares two byte strings.
pub fn compare_bytes(a: &[u8], b: &[u8]) -> (order: Precedence)
    ensures
        order == bytes_precedence(a@, b@),
{
    let mut i: usize = 0;
    while i < a.len() && i < b.len() && a[i] == b[i]
        invariant
            i <= a@.len(),
            i <= b@.len(),
            forall|k: int| 0 <= k < i ==> a@[k] == b@[k],
        decreases a@.len() - i,
    {
        i = i + 1;
    }
    assert(a@.subrange(0, i as int) =~= b@.subrange(0, i as int));
    if i == a.len() {
        if i == b.len() {
            assert(a@ =~= b@);
            proof {
                if bytes_before(a@, b@) {
                    lemma_bytes_before_is_asymmetric(a@, b@);
                }
            }
            Precedence::Equal
        } else {
            assert(parts_at(a@, b@, i as int));
            Precedence::Lower
        }
    } else if i == b.len() {
        assert(parts_at(b@, a@, i as int));
        proof {
            lemma_bytes_before_is_asymmetric(b@, a@);
        }
        Precedence::Higher
    } else if a[i] < b[i] {
        assert(parts_at(a@, b@, i as int));
        Precedence::Lower
    } else {
        assert(parts_at(b@, a@, i as int));
        proof {
            lemma_bytes_before_is_asymmetric(b@, a@);
        }
        Precedence::Higher
    }
}

/// Compares two names, as strings compare.
pub fn compare_names(a: &str, b: &str) -> (order: Precedence)
    ensures
        order == name_precedence(a@, b@),
{
    compare_bytes(a.as_bytes(), b.as_bytes())
}

/// Whether two texts are the same.
pub fn same_text(a: &str, b: &str) -> (same: bool)
    ensures
        same == (a@ == b@),
{
    let order = compare_names(a, b);
    proof {
        if order == Precedence::Equal {
            lemma_encoding_is_injective(a@, b@);
        } else if a@ == b@ {
            if bytes_before(encode_utf8(a@), encode_utf8(b@)) {
                lemma_bytes_before_is_asymmetric(encode_utf8(a@), encode_utf8(b@));
            }
        }
    }
    order == Precedence::Equal
}

} // verus!
