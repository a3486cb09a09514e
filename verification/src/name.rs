//! Names of nodes and the key-space prefixes of sections.

use vstd::prelude::*;

verus! {

/// The identifier of a node: a 256-bit number, held as its upper and lower
/// halves. Names are ordered as numbers, which is the order of their
/// thirty-two bytes read from the first to the last.
#[derive(Clone, Copy, Debug, PartialEq, Eq, Structural, PartialOrd, Ord, Hash)]
pub struct Name {
    /// The first sixteen bytes, as a big-endian number.
    pub hi: u128,
    /// The last sixteen bytes, as a big-endian number.
    pub lo: u128,
}

/// Byte `i` of the sixteen bytes of `x`, the most significant one first.
pub open spec fn be_byte(x: u128, i: int) -> u8 {
    ((x >> ((8 * (15 - i)) as u128)) & 0xff) as u8
}

/// Whether `a` comes strictly before `b`.
pub open spec fn name_lt(a: Name, b: Name) -> bool {
    a.hi < b.hi || (a.hi == b.hi && a.lo < b.lo)
}

/// Whether each name of `s` comes strictly before the next one, so that `s`
/// lists a set of names in its one canonical order.
pub open spec fn names_ascending(s: Seq<Name>) -> bool {
    forall|i: int, j: int| 0 <= i < j < s.len() ==> name_lt(#[trigger] s[i], #[trigger] s[j])
}

/// Whether `a` and `b` hold the same names, in whatever order.
pub open spec fn same_names(a: Seq<Name>, b: Seq<Name>) -> bool {
    forall|n: Name| a.contains(n) <==> b.contains(n)
}

/// The names of `names` that are not among `excluded`, in the order of
/// `names`.
pub open spec fn names_without(names: Seq<Name>, excluded: Seq<Name>) -> Seq<Name>
    decreases names.len(),
{
    if names.len() == 0 {
        Seq::empty()
    } else {
        let rest = names_without(names.drop_last(), excluded);
        if excluded.contains(names.last()) {
            rest
        } else {
            rest.push(names.last())
        }
    }
}

/// A set of names has one ascending order: two ascending lists of the same
/// names are the same list.
pub proof fn lemma_ascending_unique(a: Seq<Name>, b: Seq<Name>)
    requires
        names_ascending(a),
        names_ascending(b),
        same_names(a, b),
    ensures
        a == b,
    decreases a.len(),
{
    if a.len() == 0 {
        if b.len() > 0 {
            assert(b.contains(b[0]));
        }
        assert(a =~= b);
    } else if b.len() == 0 {
        assert(a.contains(a[0]));
    } else {
        let x = a.last();
        let y = b.last();
        assert(a.contains(x));
        assert(b.contains(y));
        let i = choose|i: int| 0 <= i < b.len() && b[i] == x;
        let j = choose|j: int| 0 <= j < a.len() && a[j] == y;
        assert(x == y) by {
            if i < b.len() - 1 {
                assert(name_lt(b[i], b[b.len() - 1]));
            }
            if j < a.len() - 1 {
                assert(name_lt(a[j], a[a.len() - 1]));
            }
        }
        let a0 = a.drop_last();
        let b0 = b.drop_last();
        assert forall|n: Name| a0.contains(n) <==> b0.contains(n) by {
            if a0.contains(n) {
                let k = choose|k: int| 0 <= k < a0.len() && a0[k] == n;
                assert(a[k] == n && name_lt(a[k], a[a.len() - 1]));
                assert(a.contains(n));
                let m = choose|m: int| 0 <= m < b.len() && b[m] == n;
                assert(m < b.len() - 1);
                assert(b0[m] == n);
            }
            if b0.contains(n) {
                let k = choose|k: int| 0 <= k < b0.len() && b0[k] == n;
                assert(b[k] == n && name_lt(b[k], b[b.len() - 1]));
                assert(b.contains(n));
                let m = choose|m: int| 0 <= m < a.len() && a[m] == n;
                assert(m < a.len() - 1);
                assert(a0[m] == n);
            }
        }
        assert forall|p: int, q: int| 0 <= p < q < a0.len() implies name_lt(
            #[trigger] a0[p],
            #[trigger] a0[q],
        ) by {
            assert(name_lt(a[p], a[q]));
        }
        assert forall|p: int, q: int| 0 <= p < q < b0.len() implies name_lt(
            #[trigger] b0[p],
            #[trigger] b0[q],
        ) by {
            assert(name_lt(b[p], b[q]));
        }
        lemma_ascending_unique(a0, b0);
        assert(a =~= a0.push(x));
        assert(b =~= b0.push(y));
    }
}

impl Name {
    /// The name with the given halves.
    pub fn new(hi: u128, lo: u128) -> (name: Name)
        ensures
            name == (Name { hi, lo }),
    {
        Name { hi, lo }
    }

    /// The thirty-two bytes of the name, first byte first.
    pub open spec fn bytes(self) -> Seq<u8> {
        Seq::new(
            32,
            |i: int|
                if i < 16 {
                    be_byte(self.hi, i)
                } else {
                    be_byte(self.lo, i - 16)
                },
        )
    }

    /// The last of the thirty-two bytes.
    pub open spec fn last_byte(self) -> u8 {
        self.bytes()[31]
    }

    /// The thirty-two bytes of the name, first byte first.
    pub fn to_bytes(&self) -> (out: [u8; 32])
        ensures
            out@ == self.bytes(),
    {
        let mut out: [u8; 32] = [0u8; 32];
        let mut i: usize = 0;
        while i < 32
            invariant
                i <= 32,
                forall|k: int| 0 <= k < i ==> out@[k] == self.bytes()[k],
            decreases 32 - i,
        {
            let half: u128 = if i < 16 {
                self.hi
            } else {
                self.lo
            };
            let shift: u128 = if i < 16 {
                8 * (15 - i as u128)
            } else {
                8 * (31 - i as u128)
            };
            let v: u128 = (half >> shift) & 0xff;
            assert(v <= 0xff) by (bit_vector)
                requires
                    v == (half >> shift) & 0xff,
            ;
            out[i] = v as u8;
            i += 1;
        }
        assert(out@ =~= self.bytes());
        out
    }

    /// The name whose thirty-two bytes are `bytes`.
    pub fn from_bytes(bytes: &[u8; 32]) -> (name: Name)
        ensures
            name.bytes() == bytes@,
    {
        let b = bytes;
        let hi = (b[0] as u128) << 120 | (b[1] as u128) << 112 | (b[2] as u128) << 104 | (
        b[3] as u128) << 96 | (b[4] as u128) << 88 | (b[5] as u128) << 80 | (b[6] as u128) << 72
            | (b[7] as u128) << 64 | (b[8] as u128) << 56 | (b[9] as u128) << 48 | (
        b[10] as u128) << 40 | (b[11] as u128) << 32 | (b[12] as u128) << 24 | (b[13] as u128)
            << 16 | (b[14] as u128) << 8 | (b[15] as u128);
        let lo = (b[16] as u128) << 120 | (b[17] as u128) << 112 | (b[18] as u128) << 104 | (
        b[19] as u128) << 96 | (b[20] as u128) << 88 | (b[21] as u128) << 80 | (b[22] as u128)
            << 72 | (b[23] as u128) << 64 | (b[24] as u128) << 56 | (b[25] as u128) << 48 | (
        b[26] as u128) << 40 | (b[27] as u128) << 32 | (b[28] as u128) << 24 | (b[29] as u128)
            << 16 | (b[30] as u128) << 8 | (b[31] as u128);
        proof {
            lemma_assemble(b@.subrange(0, 16), hi);
            lemma_assemble(b@.subrange(16, 32), lo);
        }
        let name = Name { hi, lo };
        assert(name.bytes() =~= bytes@) by {
            assert forall|i: int| 0 <= i < 32 implies name.bytes()[i] == bytes@[i] by {
                if i < 16 {
                    assert(b@.subrange(0, 16)[i] == b@[i]);
                } else {
                    assert(b@.subrange(16, 32)[i - 16] == b@[i]);
                }
            }
        }
        name
    }

    /// Whether this name comes strictly before `other`.
    pub fn precedes(&self, other: &Name) -> (b: bool)
        ensures
            b == name_lt(*self, *other),
    {
        self.hi < other.hi || (self.hi == other.hi && self.lo < other.lo)
    }
}

/// The number assembled from sixteen bytes has those bytes.
proof fn lemma_assemble(b: Seq<u8>, x: u128)
    requires
        b.len() == 16,
        x == (b[0] as u128) << 120 | (b[1] as u128) << 112 | (b[2] as u128) << 104 | (
        b[3] as u128) << 96 | (b[4] as u128) << 88 | (b[5] as u128) << 80 | (b[6] as u128) << 72
            | (b[7] as u128) << 64 | (b[8] as u128) << 56 | (b[9] as u128) << 48 | (
        b[10] as u128) << 40 | (b[11] as u128) << 32 | (b[12] as u128) << 24 | (b[13] as u128)
            << 16 | (b[14] as u128) << 8 | (b[15] as u128),
    ensures
        forall|i: int| 0 <= i < 16 ==> be_byte(x, i) == #[trigger] b[i],
{
    let (b0, b1, b2, b3, b4, b5, b6, b7) = (b[0], b[1], b[2], b[3], b[4], b[5], b[6], b[7]);
    let (b8, b9, b10, b11, b12, b13, b14, b15) = (
        b[8],
        b[9],
        b[10],
        b[11],
        b[12],
        b[13],
        b[14],
        b[15],
    );
    assert(((x >> 120u128) & 0xff) as u8 == b0 && ((x >> 112u128) & 0xff) as u8 == b1 && ((x
        >> 104u128) & 0xff) as u8 == b2 && ((x >> 96u128) & 0xff) as u8 == b3 && ((x >> 88u128)
        & 0xff) as u8 == b4 && ((x >> 80u128) & 0xff) as u8 == b5 && ((x >> 72u128) & 0xff) as u8
        == b6 && ((x >> 64u128) & 0xff) as u8 == b7 && ((x >> 56u128) & 0xff) as u8 == b8 && ((x
        >> 48u128) & 0xff) as u8 == b9 && ((x >> 40u128) & 0xff) as u8 == b10 && ((x >> 32u128)
        & 0xff) as u8 == b11 && ((x >> 24u128) & 0xff) as u8 == b12 && ((x >> 16u128) & 0xff) as u8
        == b13 && ((x >> 8u128) & 0xff) as u8 == b14 && ((x >> 0u128) & 0xff) as u8 == b15)
        by (bit_vector)
        requires
            x == (b0 as u128) << 120 | (b1 as u128) << 112 | (b2 as u128) << 104 | (b3 as u128)
                << 96 | (b4 as u128) << 88 | (b5 as u128) << 80 | (b6 as u128) << 72 | (
            b7 as u128) << 64 | (b8 as u128) << 56 | (b9 as u128) << 48 | (b10 as u128) << 40 | (
            b11 as u128) << 32 | (b12 as u128) << 24 | (b13 as u128) << 16 | (b14 as u128) << 8 | (
            b15 as u128),
    ;
    assert forall|i: int| 0 <= i < 16 implies be_byte(x, i) == #[trigger] b[i] by {
        if i == 0 {
        } else if i == 1 {
        } else if i == 2 {
        } else if i == 3 {
        } else if i == 4 {
        } else if i == 5 {
        } else if i == 6 {
        } else if i == 7 {
        } else if i == 8 {
        } else if i == 9 {
        } else if i == 10 {
        } else if i == 11 {
        } else if i == 12 {
        } else if i == 13 {
        } else if i == 14 {
        } else {
        }
    }
}

/// Sixteen bytes determine the number that has them.
proof fn lemma_bytes_determine_half(x: u128, y: u128)
    requires
        forall|i: int| 0 <= i < 16 ==> be_byte(x, i) == be_byte(y, i),
    ensures
        x == y,
{
    assert(be_byte(x, 0) == be_byte(y, 0));
    assert(be_byte(x, 1) == be_byte(y, 1));
    assert(be_byte(x, 2) == be_byte(y, 2));
    assert(be_byte(x, 3) == be_byte(y, 3));
    assert(be_byte(x, 4) == be_byte(y, 4));
    assert(be_byte(x, 5) == be_byte(y, 5));
    assert(be_byte(x, 6) == be_byte(y, 6));
    assert(be_byte(x, 7) == be_byte(y, 7));
    assert(be_byte(x, 8) == be_byte(y, 8));
    assert(be_byte(x, 9) == be_byte(y, 9));
    assert(be_byte(x, 10) == be_byte(y, 10));
    assert(be_byte(x, 11) == be_byte(y, 11));
    assert(be_byte(x, 12) == be_byte(y, 12));
    assert(be_byte(x, 13) == be_byte(y, 13));
    assert(be_byte(x, 14) == be_byte(y, 14));
    assert(be_byte(x, 15) == be_byte(y, 15));
    assert(x == y) by (bit_vector)
        requires
            ((x >> 120u128) & 0xff) as u8 == ((y >> 120u128) & 0xff) as u8,
            ((x >> 112u128) & 0xff) as u8 == ((y >> 112u128) & 0xff) as u8,
            ((x >> 104u128) & 0xff) as u8 == ((y >> 104u128) & 0xff) as u8,
            ((x >> 96u128) & 0xff) as u8 == ((y >> 96u128) & 0xff) as u8,
            ((x >> 88u128) & 0xff) as u8 == ((y >> 88u128) & 0xff) as u8,
            ((x >> 80u128) & 0xff) as u8 == ((y >> 80u128) & 0xff) as u8,
            ((x >> 72u128) & 0xff) as u8 == ((y >> 72u128) & 0xff) as u8,
            ((x >> 64u128) & 0xff) as u8 == ((y >> 64u128) & 0xff) as u8,
            ((x >> 56u128) & 0xff) as u8 == ((y >> 56u128) & 0xff) as u8,
            ((x >> 48u128) & 0xff) as u8 == ((y >> 48u128) & 0xff) as u8,
            ((x >> 40u128) & 0xff) as u8 == ((y >> 40u128) & 0xff) as u8,
            ((x >> 32u128) & 0xff) as u8 == ((y >> 32u128) & 0xff) as u8,
            ((x >> 24u128) & 0xff) as u8 == ((y >> 24u128) & 0xff) as u8,
            ((x >> 16u128) & 0xff) as u8 == ((y >> 16u128) & 0xff) as u8,
            ((x >> 8u128) & 0xff) as u8 == ((y >> 8u128) & 0xff) as u8,
            ((x >> 0u128) & 0xff) as u8 == ((y >> 0u128) & 0xff) as u8,
    ;
}

/// Whether `a` comes before `b` as a string of bytes: where they first
/// differ, `a` has the smaller byte.
pub open spec fn bytes_lt(a: Seq<u8>, b: Seq<u8>) -> bool {
    exists|k: int|
        0 <= k < a.len() && k < b.len() && a.subrange(0, k) == b.subrange(0, k) && a[k] < b[k]
}

/// The number made of the first `k` of the sixteen bytes of `x`.
spec fn leading_bytes(x: u128, k: int) -> u128 {
    if k <= 0 {
        0
    } else {
        x >> ((128 - 8 * k) as u128)
    }
}

/// Whether the sixteen bytes of `x` and `y` first differ at position `i`, and
/// `x` has the smaller byte there.
spec fn smaller_at(x: u128, y: u128, i: int) -> bool {
    (forall|j: int| 0 <= j < i ==> be_byte(x, j) == be_byte(y, j)) && be_byte(x, i) < be_byte(y, i)
}

proof fn lemma_leading_step(x: u128, y: u128, k: int)
    requires
        0 <= k < 16,
    ensures
        leading_bytes(x, k + 1) < leading_bytes(y, k + 1) <==> leading_bytes(x, k) < leading_bytes(
            y,
            k,
        ) || (leading_bytes(x, k) == leading_bytes(y, k) && be_byte(x, k) < be_byte(y, k)),
        leading_bytes(x, k + 1) == leading_bytes(y, k + 1) <==> leading_bytes(x, k)
            == leading_bytes(y, k) && be_byte(x, k) == be_byte(y, k),
{
    let s: u128 = (120 - 8 * k) as u128;
    assert(s == ((8 * (15 - k)) as u128));
    assert(s == ((128 - 8 * (k + 1)) as u128));
    let xs = x >> s;
    let ys = y >> s;
    let xb = (xs & 0xff) as u8;
    let yb = (ys & 0xff) as u8;
    assert(be_byte(x, k) == xb && be_byte(y, k) == yb);
    assert(leading_bytes(x, k + 1) == xs && leading_bytes(y, k + 1) == ys);
    if k == 0 {
        assert((xs < ys <==> xb < yb) && (xs == ys <==> xb == yb)) by (bit_vector)
            requires
                xs == x >> 120u128,
                ys == y >> 120u128,
                xb == (xs & 0xff) as u8,
                yb == (ys & 0xff) as u8,
        ;
    } else {
        let t: u128 = (s + 8) as u128;
        assert(t == ((128 - 8 * k) as u128));
        let xt = x >> t;
        let yt = y >> t;
        assert(leading_bytes(x, k) == xt && leading_bytes(y, k) == yt);
        assert(xt == xs >> 8u128 && yt == ys >> 8u128) by {
            lemma_shift_on(x, s);
            lemma_shift_on(y, s);
        }
        assert((xs < ys <==> xt < yt || (xt == yt && xb < yb)) && (xs == ys <==> xt == yt && xb
            == yb)) by (bit_vector)
            requires
                xt == xs >> 8u128,
                yt == ys >> 8u128,
                xb == (xs & 0xff) as u8,
                yb == (ys & 0xff) as u8,
        ;
    }
}

/// To shift by eight more bits is to shift once more by eight bits.
proof fn lemma_shift_on(x: u128, s: u128)
    requires
        s <= 112,
    ensures
        x >> ((s + 8) as u128) == (x >> s) >> 8u128,
{
    let t: u128 = (s + 8) as u128;
    assert(x >> t == (x >> s) >> 8u128) by (bit_vector)
        requires
            s <= 112,
            t == s + 8,
    ;
}

proof fn lemma_leading_order(x: u128, y: u128, k: int)
    requires
        0 <= k <= 16,
    ensures
        leading_bytes(x, k) == leading_bytes(y, k) <==> (forall|j: int|
            0 <= j < k ==> be_byte(x, j) == be_byte(y, j)),
        leading_bytes(x, k) < leading_bytes(y, k) <==> (exists|i: int|
            0 <= i < k && smaller_at(x, y, i)),
    decreases k,
{
    if k > 0 {
        lemma_leading_order(x, y, k - 1);
        lemma_leading_step(x, y, k - 1);
        if leading_bytes(x, k) < leading_bytes(y, k) {
            if leading_bytes(x, k - 1) < leading_bytes(y, k - 1) {
                let i = choose|i: int| 0 <= i < k - 1 && smaller_at(x, y, i);
                assert(0 <= i < k && smaller_at(x, y, i));
            } else {
                assert(smaller_at(x, y, k - 1));
            }
        }
        if exists|i: int| 0 <= i < k && smaller_at(x, y, i) {
            let i = choose|i: int| 0 <= i < k && smaller_at(x, y, i);
            if i < k - 1 {
                assert(0 <= i < k - 1 && smaller_at(x, y, i));
            } else {
                assert(forall|j: int| 0 <= j < k - 1 ==> be_byte(x, j) == be_byte(y, j));
            }
        }
    }
}

/// A number is smaller than another exactly when its sixteen bytes first
/// differ from the other's at a position where it has the smaller byte.
proof fn lemma_half_order(x: u128, y: u128)
    ensures
        x == y <==> (forall|j: int| 0 <= j < 16 ==> be_byte(x, j) == be_byte(y, j)),
        x < y <==> (exists|i: int| 0 <= i < 16 && smaller_at(x, y, i)),
{
    lemma_leading_order(x, y, 16);
    assert(x >> 0u128 == x) by (bit_vector);
    assert(y >> 0u128 == y) by (bit_vector);
}

/// The order of names is the order of their bytes: a name comes before
/// another exactly when, at the first of the thirty-two bytes in which they
/// differ, it has the smaller byte.
pub proof fn lemma_name_order_is_byte_order(a: Name, b: Name)
    ensures
        name_lt(a, b) <==> bytes_lt(a.bytes(), b.bytes()),
{
    let x = a.bytes();
    let y = b.bytes();
    lemma_half_order(a.hi, b.hi);
    lemma_half_order(a.lo, b.lo);
    assert forall|j: int| 0 <= j < 16 implies x[j] == be_byte(a.hi, j) && y[j] == be_byte(
        b.hi,
        j,
    ) && x[j + 16] == be_byte(a.lo, j) && y[j + 16] == be_byte(b.lo, j) by {}
    if name_lt(a, b) {
        if a.hi < b.hi {
            let i = choose|i: int| 0 <= i < 16 && smaller_at(a.hi, b.hi, i);
            assert(x.subrange(0, i) =~= y.subrange(0, i));
            assert(x[i] < y[i]);
        } else {
            let i = choose|i: int| 0 <= i < 16 && smaller_at(a.lo, b.lo, i);
            assert(x.subrange(0, i + 16) =~= y.subrange(0, i + 16)) by {
                assert forall|j: int| 0 <= j < i + 16 implies x[j] == y[j] by {
                    if j >= 16 {
                        assert(x[(j - 16) + 16] == be_byte(a.lo, j - 16));
                    }
                }
            }
            assert(x[i + 16] < y[i + 16]);
        }
    }
    if bytes_lt(x, y) {
        let k = choose|k: int|
            0 <= k < x.len() && k < y.len() && x.subrange(0, k) == y.subrange(0, k) && x[k] < y[k];
        assert forall|j: int| 0 <= j < k implies x[j] == y[j] by {
            assert(x.subrange(0, k)[j] == y.subrange(0, k)[j]);
        }
        if k < 16 {
            assert(smaller_at(a.hi, b.hi, k));
        } else {
            assert forall|j: int| 0 <= j < 16 implies be_byte(a.hi, j) == be_byte(b.hi, j) by {
                assert(x[j] == y[j]);
            }
            assert(smaller_at(a.lo, b.lo, k - 16)) by {
                assert forall|j: int| 0 <= j < k - 16 implies be_byte(a.lo, j) == be_byte(
                    b.lo,
                    j,
                ) by {
                    assert(x[j + 16] == y[j + 16]);
                }
                assert(x[(k - 16) + 16] == be_byte(a.lo, k - 16));
            }
        }
    }
}

/// A name is determined by its bytes: two names with the same thirty-two
/// bytes are the same name.
pub proof fn lemma_bytes_determine_name(a: Name, b: Name)
    requires
        a.bytes() == b.bytes(),
    ensures
        a == b,
{
    assert forall|i: int| 0 <= i < 16 implies be_byte(a.hi, i) == be_byte(b.hi, i) by {
        assert(a.bytes()[i] == be_byte(a.hi, i));
        assert(b.bytes()[i] == be_byte(b.hi, i));
    }
    assert forall|i: int| 0 <= i < 16 implies be_byte(a.lo, i) == be_byte(b.lo, i) by {
        assert(a.bytes()[i + 16] == be_byte(a.lo, i));
        assert(b.bytes()[i + 16] == be_byte(b.lo, i));
    }
    lemma_bytes_determine_half(a.hi, b.hi);
    lemma_bytes_determine_half(a.lo, b.lo);
}

/// A key-space prefix: the first `bit_count` bits of `name` select the names
/// that a section is responsible for. Two prefixes are the same when both
/// fields agree.
#[derive(Clone, Copy, Debug, PartialEq, Eq, Structural, Hash)]
pub struct Prefix {
    /// How many leading bits count.
    pub bit_count: u16,
    /// A name that carries those bits.
    pub name: Name,
}

impl Prefix {
    /// The prefix made of the first `bit_count` bits of `name`.
    pub fn new(bit_count: u16, name: Name) -> (prefix: Prefix)
        ensures
            prefix == (Prefix { bit_count, name }),
    {
        Prefix { bit_count, name }
    }
}

/// A set of names, held in ascending order.
#[derive(Debug, PartialEq, Eq)]
pub struct NameSet {
    names: Vec<Name>,
}

impl View for NameSet {
    type V = Seq<Name>;

    closed spec fn view(&self) -> Seq<Name> {
        self.names@
    }
}

impl NameSet {
    /// The names are held in strictly ascending order. This holds of every
    /// set.
    #[verifier::type_invariant]
    pub open spec fn wf(self) -> bool {
        names_ascending(self@)
    }

    /// The empty set.
    pub fn new() -> (set: NameSet)
        ensures
            set@ == Seq::<Name>::empty(),
    {
        NameSet { names: Vec::new() }
    }

    /// The number of names in the set.
    pub fn len(&self) -> (n: usize)
        ensures
            n == self@.len(),
    {
        self.names.len()
    }

    /// Whether the set holds no name.
    pub fn is_empty(&self) -> (b: bool)
        ensures
            b == (self@.len() == 0),
    {
        self.names.len() == 0
    }

    /// The name at position `i` of the ascending order.
    pub fn get(&self, i: usize) -> (name: Name)
        requires
            i < self@.len(),
        ensures
            name == self@[i as int],
    {
        self.names[i]
    }

    /// Whether `name` is in the set.
    pub fn contains(&self, name: &Name) -> (b: bool)
        ensures
            b == self@.contains(*name),
    {
        let mut i: usize = 0;
        while i < self.names.len()
            invariant
                i <= self.names.len(),
                forall|k: int| 0 <= k < i ==> self.names@[k] != *name,
            decreases self.names.len() - i,
        {
            if self.names[i] == *name {
                return true;
            }
            i += 1;
        }
        false
    }

    /// Adds `name` to the set and says whether it was new.
    pub fn insert(&mut self, name: Name) -> (added: bool)
        ensures
            names_ascending(final(self)@),
            added == !old(self)@.contains(name),
            forall|n: Name| final(self)@.contains(n) <==> (old(self)@.contains(n) || n == name),
            !added ==> final(self)@ == old(self)@,
            added ==> final(self)@.len() == old(self)@.len() + 1,
    {
        proof {
            use_type_invariant(&*self);
        }
        let mut i: usize = 0;
        while i < self.names.len() && self.names[i].precedes(&name)
            invariant
                i <= self.names.len(),
                self.names@ == old(self).names@,
                forall|k: int| 0 <= k < i ==> name_lt(self.names@[k], name),
            decreases self.names.len() - i,
        {
            i += 1;
        }
        if i < self.names.len() && self.names[i] == name {
            false
        } else {
            let ghost before = self.names@;
            proof {
                let after = before.insert(i as int, name);
                assert forall|a: int, b: int| 0 <= a < b < after.len() implies name_lt(
                    #[trigger] after[a],
                    #[trigger] after[b],
                ) by {
                    if b < i {
                        assert(after[a] == before[a] && after[b] == before[b]);
                    } else if b == i {
                        assert(after[a] == before[a]);
                    } else if a < i {
                        assert(after[a] == before[a] && after[b] == before[b - 1]);
                        assert(name_lt(before[a], before[b - 1]) || b - 1 == a);
                    } else if a == i {
                        assert(after[b] == before[b - 1]);
                        assert(!name_lt(before[i as int], name));
                        assert(b - 1 == i || name_lt(before[i as int], before[b - 1]));
                    } else {
                        assert(after[a] == before[a - 1] && after[b] == before[b - 1]);
                    }
                }
                assert forall|n: Name| after.contains(n) <==> (before.contains(n) || n == name) by {
                    if after.contains(n) {
                        let k = choose|k: int| 0 <= k < after.len() && after[k] == n;
                        if k < i {
                            assert(before[k] == n);
                        } else if k > i {
                            assert(before[k - 1] == n);
                        }
                    }
                    if before.contains(n) {
                        let k = choose|k: int| 0 <= k < before.len() && before[k] == n;
                        if k < i {
                            assert(after[k] == n);
                        } else {
                            assert(after[k + 1] == n);
                        }
                    }
                    if n == name {
                        assert(after[i as int] == n);
                    }
                }
                assert(!before.contains(name)) by {
                    if before.contains(name) {
                        let k = choose|k: int| 0 <= k < before.len() && before[k] == name;
                        if k < i {
                            assert(name_lt(before[k], name));
                        } else if k > i {
                            assert(name_lt(before[i as int], before[k]));
                        }
                    }
                }
            }
            let mut names: Vec<Name> = Vec::new();
            core::mem::swap(&mut self.names, &mut names);
            names.insert(i, name);
            self.names = names;
            true
        }
    }

    /// The set of the names in `names`, in whatever order and however often
    /// they occur there.
    pub fn from_vec(names: &Vec<Name>) -> (set: NameSet)
        ensures
            forall|n: Name| set@.contains(n) <==> names@.contains(n),
    {
        let mut set = NameSet::new();
        let mut i: usize = 0;
        while i < names.len()
            invariant
                i <= names.len(),
                forall|n: Name| set@.contains(n) <==> names@.take(i as int).contains(n),
            decreases names.len() - i,
        {
            let ghost prev = set@;
            set.insert(names[i]);
            proof {
                let t0 = names@.take(i as int);
                let t1 = names@.take(i + 1);
                assert forall|n: Name| set@.contains(n) <==> t1.contains(n) by {
                    if t1.contains(n) {
                        let k = choose|k: int| 0 <= k < t1.len() && t1[k] == n;
                        if k < i {
                            assert(t0[k] == n);
                        }
                    }
                    if t0.contains(n) {
                        let k = choose|k: int| 0 <= k < t0.len() && t0[k] == n;
                        assert(t1[k] == n);
                    }
                    if n == names@[i as int] {
                        assert(t1[i as int] == n);
                    }
                }
            }
            i += 1;
        }
        assert(names@.take(names.len() as int) == names@);
        set
    }

    /// This set without the names of `excluded`.
    pub fn without(&self, excluded: &NameSet) -> (out: NameSet)
        ensures
            out@ == names_without(self@, excluded@),
    {
        proof {
            use_type_invariant(self);
        }
        let mut names: Vec<Name> = Vec::new();
        let mut i: usize = 0;
        while i < self.names.len()
            invariant
                i <= self.names.len(),
                names_ascending(self.names@),
                names@ == names_without(self.names@.take(i as int), excluded@),
                names_ascending(names@),
                forall|k: int|
                    0 <= k < names@.len() ==> exists|j: int|
                        0 <= j < i && self.names@[j] == #[trigger] names@[k],
            decreases self.names.len() - i,
        {
            let name = self.names[i];
            assert(self.names@.take(i + 1).drop_last() == self.names@.take(i as int));
            assert(self.names@.take(i + 1).last() == name);
            if !excluded.contains(&name) {
                let ghost before = names@;
                names.push(name);
                proof {
                    assert forall|a: int, b: int| 0 <= a < b < names@.len() implies name_lt(
                        #[trigger] names@[a],
                        #[trigger] names@[b],
                    ) by {
                        if b < before.len() {
                            assert(name_lt(before[a], before[b]));
                        } else {
                            let j = choose|j: int| 0 <= j < i && self.names@[j] == before[a];
                            assert(name_lt(self.names@[j], self.names@[i as int]));
                        }
                    }
                    assert forall|k: int| 0 <= k < names@.len() implies exists|j: int|
                        0 <= j < i + 1 && self.names@[j] == #[trigger] names@[k] by {
                        if k < before.len() {
                            let j = choose|j: int| 0 <= j < i && self.names@[j] == before[k];
                            assert(self.names@[j] == names@[k]);
                        } else {
                            assert(self.names@[i as int] == names@[k]);
                        }
                    }
                }
            }
            i += 1;
        }
        assert(self.names@.take(self.names.len() as int) == self.names@);
        NameSet { names }
    }

    /// Whether the two sets hold the same names.
    pub fn same(&self, other: &NameSet) -> (b: bool)
        ensures
            b == (self@ == other@),
            b == same_names(self@, other@),
    {
        proof {
            use_type_invariant(self);
            use_type_invariant(other);
            if same_names(self@, other@) {
                lemma_ascending_unique(self@, other@);
            }
        }
        if self.names.len() != other.names.len() {
            return false;
        }
        let mut i: usize = 0;
        while i < self.names.len()
            invariant
                i <= self.names.len(),
                self.names.len() == other.names.len(),
                same_names(self@, other@) ==> self@ == other@,
                forall|k: int| 0 <= k < i ==> self.names@[k] == other.names@[k],
            decreases self.names.len() - i,
        {
            if self.names[i] != other.names[i] {
                return false;
            }
            i += 1;
        }
        assert(self.names@ =~= other.names@);
        true
    }

    /// A copy of the set.
    pub fn copy(&self) -> (set: NameSet)
        ensures
            set@ == self@,
    {
        let mut names: Vec<Name> = Vec::new();
        let mut i: usize = 0;
        while i < self.names.len()
            invariant
                i <= self.names.len(),
                names@ == self.names@.take(i as int),
            decreases self.names.len() - i,
        {
            names.push(self.names[i]);
            assert(self.names@.take(i + 1) == self.names@.take(i as int).push(self.names@[i as int]));
            i += 1;
        }
        assert(self.names@.take(self.names.len() as int) == self.names@);
        proof {
            use_type_invariant(self);
        }
        NameSet { names }
    }

    /// The names of the set, in ascending order.
    pub fn to_vec(&self) -> (names: Vec<Name>)
        ensures
            names@ == self@,
    {
        self.copy().names
    }
}

} // verus!
