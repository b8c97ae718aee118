//! What holds of the order of texts and of names made of numbers.

use vstd::prelude::*;

verus! {

/// Of two byte strings the one with the smaller byte at the first place where
/// they differ comes first.
pub proof fn bytes_are_ordered_by_the_first_difference(a: Seq<u8>, b: Seq<u8>, k: int)
    requires
        0 <= k < a.len(),
        k < b.len(),
        forall|i: int| 0 <= i < k ==> #[trigger] a[i] == b[i],
        a[k] < b[k],
    ensures
        crate::text::bytes_before(a, b),
        !crate::text::bytes_before(b, a),
    decreases k,
{
    if k > 0 {
        assert(a[0] == b[0]);
        let x = a.drop_first();
        let y = b.drop_first();
        assert forall|i: int| 0 <= i < k - 1 implies #[trigger] x[i] == y[i] by {
            assert(a[i + 1] == b[i + 1]);
        }
        assert(x[k - 1] == a[k]);
        bytes_are_ordered_by_the_first_difference(x, y, k - 1);
    }
}

/// What a byte string begins with comes before it.
pub proof fn beginnings_come_first(a: Seq<u8>, rest: Seq<u8>)
    requires
        rest.len() > 0,
    ensures
        crate::text::bytes_before(a, a + rest),
        !crate::text::bytes_before(a + rest, a),
    decreases a.len(),
{
    if a.len() > 0 {
        beginnings_come_first(a.drop_first(), rest);
        assert((a + rest).drop_first() =~= a.drop_first() + rest);
    }
}

/// Texts are ordered as their encodings are.
pub proof fn texts_are_ordered_by_their_bytes(a: Seq<char>, b: Seq<char>, k: int)
    requires
        ({
            let x = vstd::utf8::encode_utf8(a);
            let y = vstd::utf8::encode_utf8(b);
            0 <= k < x.len() && k < y.len() && x[k] < y[k] && forall|i: int|
                0 <= i < k ==> #[trigger] x[i] == y[i]
        }),
    ensures
        crate::text::text_before(a, b),
        !crate::text::text_before(b, a),
{
    bytes_are_ordered_by_the_first_difference(
        vstd::utf8::encode_utf8(a),
        vstd::utf8::encode_utf8(b),
        k,
    );
}

} // verus!
