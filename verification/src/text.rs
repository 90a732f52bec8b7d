//! Text: lists of it, its equality, and the byte order in which host names are listed.
use vstd::prelude::*;
use vstd::utf8::*;

verus! {

/// The texts of a list of string slices.
pub open spec fn texts(parts: Seq<&str>) -> Seq<Seq<char>> {
    parts.map_values(|part: &str| part@)
}

/// At position `at`, `a` is told apart from `b` as the earlier of the two: they agree on
/// everything before it, and there `a` ends or holds the smaller byte.
pub open spec fn parts_at(a: Seq<u8>, b: Seq<u8>, at: int) -> bool {
    &&& 0 <= at <= a.len()
    &&& at < b.len()
    &&& forall|k: int| 0 <= k < at ==> a[k] == b[k]
    &&& at == a.len() || a[at] < b[at]
}

/// Lexicographic order on byte strings.
pub open spec fn bytes_before(a: Seq<u8>, b: Seq<u8>) -> bool {
    exists|at: int| parts_at(a, b, at)
}

/// The order of text: that of its UTF-8 bytes.
pub open spec fn text_before(a: Seq<char>, b: Seq<char>) -> bool {
    bytes_before(encode_utf8(a), encode_utf8(b))
}

/// No byte string comes before itself.
pub proof fn lemma_bytes_before_irreflexive(a: Seq<u8>)
    ensures
        !bytes_before(a, a),
{
}

/// The byte order is transitive.
pub proof fn lemma_bytes_before_transitive(a: Seq<u8>, b: Seq<u8>, c: Seq<u8>)
    requires
        bytes_before(a, b),
        bytes_before(b, c),
    ensures
        bytes_before(a, c),
{
    let i = choose|i: int| parts_at(a, b, i);
    let j = choose|j: int| parts_at(b, c, j);
    assert(parts_at(a, c, if i <= j { i } else { j }));
}

/// Two different texts have different UTF-8 bytes.
pub proof fn lemma_utf8_injective(a: Seq<char>, b: Seq<char>)
    requires
        encode_utf8(a) == encode_utf8(b),
    ensures
        a == b,
{
    encode_utf8_decode_utf8(a);
    encode_utf8_decode_utf8(b);
}

/// How two texts stand to each other.
#[derive(Debug, Clone, Copy, PartialEq, Eq, Structural)]
pub enum Order {
    Before,
    Same,
    After,
}

/// Finds the order of two texts.
pub fn order_text(a: &str, b: &str) -> (order: Order)
    ensures
        match order {
            Order::Before => text_before(a@, b@),
            Order::Same => a@ == b@,
            Order::After => text_before(b@, a@),
        },
{
    let x: &[u8] = a.as_bytes();
    let y: &[u8] = b.as_bytes();
    let mut i: usize = 0;
    while i < x.len() && i < y.len() && x[i] == y[i]
        invariant
            i <= x.len(),
            i <= y.len(),
            forall|k: int| 0 <= k < i ==> x[k] == y[k],
        decreases x.len() - i,
    {
        i += 1;
    }
    if i < x.len() && i < y.len() {
        if x[i] < y[i] {
            assert(parts_at(x@, y@, i as int));
            Order::Before
        } else {
            assert(parts_at(y@, x@, i as int));
            Order::After
        }
    } else if i < y.len() {
        assert(parts_at(x@, y@, i as int));
        Order::Before
    } else if i < x.len() {
        assert(parts_at(y@, x@, i as int));
        Order::After
    } else {
        proof {
            assert(x@ =~= y@);
            lemma_utf8_injective(a@, b@);
        }
        Order::Same
    }
}

/// Whether two texts are the same.
pub fn same_text(a: &str, b: &str) -> (same: bool)
    ensures
        same == (a@ == b@),
{
    match order_text(a, b) {
        Order::Same => true,
        Order::Before => {
            proof {
                lemma_bytes_before_irreflexive(encode_utf8(a@));
            }
            false
        },
        Order::After => {
            proof {
                lemma_bytes_before_irreflexive(encode_utf8(a@));
            }
            false
        },
    }
}

/// The order of text is that of a dictionary of bytes: where two texts first differ, the
/// smaller byte comes first.
pub proof fn law_smaller_byte_comes_first(
    a: Seq<char>,
    b: Seq<char>,
    common: Seq<u8>,
    rest_a: Seq<u8>,
    rest_b: Seq<u8>,
)
    requires
        encode_utf8(a) == common + rest_a,
        encode_utf8(b) == common + rest_b,
        rest_b.len() > 0,
        rest_a.len() == 0 || rest_a[0] < rest_b[0],
    ensures
        text_before(a, b),
        !text_before(b, a),
        a != b,
{
    let x = encode_utf8(a);
    let y = encode_utf8(b);
    assert(y[common.len() as int] == rest_b[0]);
    assert(rest_a.len() > 0 ==> x[common.len() as int] == rest_a[0]);
    assert(forall|k: int| 0 <= k < common.len() ==> x[k] == common[k] && y[k] == common[k]);
    assert(parts_at(x, y, common.len() as int));
    if text_before(b, a) {
        lemma_bytes_before_transitive(x, y, x);
        lemma_bytes_before_irreflexive(x);
    }
}

/// Of two different texts exactly one comes before the other; no text comes before itself.
pub proof fn law_texts_are_totally_ordered(a: Seq<char>, b: Seq<char>, c: Seq<char>)
    ensures
        !text_before(a, a),
        a != b ==> text_before(a, b) != text_before(b, a),
        text_before(a, b) && text_before(b, c) ==> text_before(a, c),
{
    let x = encode_utf8(a);
    let y = encode_utf8(b);
    lemma_bytes_before_irreflexive(x);
    if text_before(a, b) && text_before(b, a) {
        lemma_bytes_before_transitive(x, y, x);
    }
    if text_before(a, b) && text_before(b, c) {
        lemma_bytes_before_transitive(x, y, encode_utf8(c));
    }
    if a != b && !text_before(a, b) && !text_before(b, a) {
        lemma_bytes_apart(x, y, 0);
        lemma_utf8_injective(a, b);
    }
}

/// Byte strings that agree up to `at`, and of which neither comes before the other, are equal.
proof fn lemma_bytes_apart(a: Seq<u8>, b: Seq<u8>, at: int)
    requires
        !bytes_before(a, b),
        !bytes_before(b, a),
        0 <= at <= a.len(),
        at <= b.len(),
        forall|k: int| 0 <= k < at ==> a[k] == b[k],
    ensures
        a == b,
    decreases a.len() - at,
{
    assert(!parts_at(a, b, at));
    assert(!parts_at(b, a, at));
    if at < a.len() && at < b.len() {
        lemma_bytes_apart(a, b, at + 1);
    } else {
        assert(a =~= b);
    }
}

} // verus!
