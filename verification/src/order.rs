//! Byte-wise lexicographic order on paths.
//!
//! Paths are compared by the bytes of their UTF-8 encoding, which is the order
//! in which both tree snapshots are sorted and merged.

use vstd::prelude::*;
use vstd::utf8::*;

verus! {

/// The bytes by which a path is ordered: its UTF-8 encoding.
pub open spec fn path_bytes(path: Seq<char>) -> Seq<u8> {
    encode_utf8(path)
}

/// `a` and `b` hold the same bytes at every index below `k`.
pub open spec fn agree_before(a: Seq<u8>, b: Seq<u8>, k: int) -> bool {
    &&& 0 <= k <= a.len()
    &&& k <= b.len()
    &&& forall|j: int| 0 <= j < k ==> a[j] == b[j]
}

/// Strict lexicographic order on byte strings: at the first index where the
/// two differ `a` holds the smaller byte, or `a` is a proper prefix of `b`.
pub open spec fn bytes_lt(a: Seq<u8>, b: Seq<u8>) -> bool {
    exists|k: int| #[trigger]
        agree_before(a, b, k) && k < b.len() && (k == a.len() || a[k] < b[k])
}

/// Strict order on paths.
pub open spec fn path_lt(a: Seq<char>, b: Seq<char>) -> bool {
    bytes_lt(path_bytes(a), path_bytes(b))
}

/// Non-strict order on paths.
pub open spec fn path_le(a: Seq<char>, b: Seq<char>) -> bool {
    a == b || path_lt(a, b)
}

/// How one path stands to another in the order.
#[derive(Clone, Copy, Debug, PartialEq, Eq)]
pub enum PathOrder {
    Before,
    Same,
    After,
}

/// The order is asymmetric.
pub proof fn lemma_bytes_lt_asymmetric(a: Seq<u8>, b: Seq<u8>)
    requires
        bytes_lt(a, b),
    ensures
        !bytes_lt(b, a),
{
    let k = choose|k: int| #[trigger]
        agree_before(a, b, k) && k < b.len() && (k == a.len() || a[k] < b[k]);
    if bytes_lt(b, a) {
        let m = choose|m: int| #[trigger]
            agree_before(b, a, m) && m < a.len() && (m == b.len() || b[m] < a[m]);
        if m < k {
            assert(a[m] == b[m]);
        } else if k < m {
            assert(b[k] == a[k]);
        }
    }
}

/// The order is transitive.
pub proof fn lemma_bytes_lt_transitive(a: Seq<u8>, b: Seq<u8>, c: Seq<u8>)
    requires
        bytes_lt(a, b),
        bytes_lt(b, c),
    ensures
        bytes_lt(a, c),
{
    let k = choose|k: int| #[trigger]
        agree_before(a, b, k) && k < b.len() && (k == a.len() || a[k] < b[k]);
    let m = choose|m: int| #[trigger]
        agree_before(b, c, m) && m < c.len() && (m == b.len() || b[m] < c[m]);
    let n = if k <= m { k } else { m };
    assert(agree_before(a, c, n)) by {
        assert forall|j: int| 0 <= j < n implies a[j] == c[j] by {
            assert(a[j] == b[j]);
            assert(b[j] == c[j]);
        }
    }
    if k < m {
        assert(b[k] == c[k]);
    }
}

/// Two byte strings that agree before `k` and differ there, or of which one
/// ends there, stand as the bytes at `k` decide.
pub proof fn lemma_bytes_order_at(a: Seq<u8>, b: Seq<u8>, k: int)
    requires
        agree_before(a, b, k),
    ensures
        k == a.len() && k == b.len() ==> a == b,
        k == a.len() && k < b.len() ==> bytes_lt(a, b),
        k == b.len() && k < a.len() ==> bytes_lt(b, a),
        k < a.len() && k < b.len() && a[k] < b[k] ==> bytes_lt(a, b),
        k < a.len() && k < b.len() && b[k] < a[k] ==> bytes_lt(b, a),
{
    if k == a.len() && k == b.len() {
        assert(a =~= b);
    }
    assert(agree_before(b, a, k));
}

/// Any two byte strings are equal or one is below the other.
pub proof fn lemma_bytes_lt_total(a: Seq<u8>, b: Seq<u8>)
    ensures
        a == b || bytes_lt(a, b) || bytes_lt(b, a),
{
    lemma_common_prefix(a, b, 0);
    let k = common_prefix_end(a, b, 0);
    lemma_bytes_order_at(a, b, k);
}

/// The first index at or after `i` where `a` and `b` differ or one of them ends.
pub open spec fn common_prefix_end(a: Seq<u8>, b: Seq<u8>, i: int) -> int
    decreases a.len() - i,
{
    if 0 <= i < a.len() && i < b.len() && a[i] == b[i] {
        common_prefix_end(a, b, i + 1)
    } else {
        i
    }
}

proof fn lemma_common_prefix(a: Seq<u8>, b: Seq<u8>, i: int)
    requires
        agree_before(a, b, i),
    ensures
        agree_before(a, b, common_prefix_end(a, b, i)),
        ({
            let k = common_prefix_end(a, b, i);
            k == a.len() || k == b.len() || a[k] != b[k]
        }),
    decreases a.len() - i,
{
    if i < a.len() && i < b.len() && a[i] == b[i] {
        assert(agree_before(a, b, i + 1));
        lemma_common_prefix(a, b, i + 1);
    }
}

/// Paths with the same bytes are the same path.
pub proof fn lemma_path_bytes_injective(a: Seq<char>, b: Seq<char>)
    requires
        path_bytes(a) == path_bytes(b),
    ensures
        a == b,
{
    encode_utf8_decode_utf8(a);
    encode_utf8_decode_utf8(b);
}

/// Any two paths are equal or one is below the other, and never both.
pub proof fn lemma_path_order_total(a: Seq<char>, b: Seq<char>)
    ensures
        a == b || path_lt(a, b) || path_lt(b, a),
        !(path_lt(a, b) && path_lt(b, a)),
        !path_lt(a, a),
{
    lemma_bytes_lt_total(path_bytes(a), path_bytes(b));
    if path_bytes(a) == path_bytes(b) {
        lemma_path_bytes_injective(a, b);
    }
    if path_lt(a, b) {
        lemma_bytes_lt_asymmetric(path_bytes(a), path_bytes(b));
    }
}

/// The order on paths is transitive.
pub proof fn lemma_path_lt_transitive(a: Seq<char>, b: Seq<char>, c: Seq<char>)
    requires
        path_lt(a, b),
        path_lt(b, c),
    ensures
        path_lt(a, c),
{
    lemma_bytes_lt_transitive(path_bytes(a), path_bytes(b), path_bytes(c));
}

/// Compares two paths byte by byte.
pub fn compare_paths(a: &str, b: &str) -> (r: PathOrder)
    ensures
        r == PathOrder::Before <==> path_lt(a@, b@),
        r == PathOrder::Same <==> a@ == b@,
        r == PathOrder::After <==> path_lt(b@, a@),
{
    let x = a.as_bytes();
    let y = b.as_bytes();
    let mut i: usize = 0;
    while i < x.len() && i < y.len() && x[i] == y[i]
        invariant
            agree_before(x@, y@, i as int),
        decreases x.len() - i,
    {
        i += 1;
    }
    proof {
        lemma_bytes_order_at(x@, y@, i as int);
        lemma_path_order_total(a@, b@);
        if x@ == y@ {
            lemma_path_bytes_injective(a@, b@);
        }
    }
    if i == x.len() {
        if i == y.len() {
            PathOrder::Same
        } else {
            PathOrder::Before
        }
    } else if i == y.len() {
        PathOrder::After
    } else if x[i] < y[i] {
        PathOrder::Before
    } else {
        PathOrder::After
    }
}

/// The byte that separates the segments of a path: `/`.
pub const SEPARATOR: u8 = 0x2f;

/// `path` begins with `dir` followed by `/`.
pub open spec fn inside(dir: Seq<char>, path: Seq<char>) -> bool {
    (dir + seq!['/']).is_prefix_of(path)
}

/// The bytes of `path` begin with the bytes of `dir` followed by the separator.
pub open spec fn bytes_inside(dir: Seq<char>, path: Seq<char>) -> bool {
    let d = path_bytes(dir);
    let p = path_bytes(path);
    &&& d.len() < p.len()
    &&& forall|j: int| 0 <= j < d.len() ==> p[j] == d[j]
    &&& p[d.len() as int] == SEPARATOR
}

/// Tells whether `path` begins with `dir` followed by `/`.
pub fn is_inside(dir: &str, path: &str) -> (r: bool)
    ensures
        r == inside(dir@, path@),
{
    let d = dir.as_bytes();
    let p = path.as_bytes();
    proof {
        lemma_inside_by_bytes(dir@, path@);
    }
    if p.len() <= d.len() {
        return false;
    }
    let mut i: usize = 0;
    while i < d.len()
        invariant
            i <= d.len() < p.len(),
            inside(dir@, path@) <==> bytes_inside(dir@, path@),
            d@ == path_bytes(dir@),
            p@ == path_bytes(path@),
            forall|j: int| 0 <= j < i ==> p[j] == d[j],
        decreases d.len() - i,
    {
        if d[i] != p[i] {
            return false;
        }
        i += 1;
    }
    p[d.len()] == SEPARATOR
}

/// The non-strict order is transitive.
pub proof fn lemma_path_le_transitive(a: Seq<char>, b: Seq<char>, c: Seq<char>)
    requires
        path_le(a, b),
        path_le(b, c),
    ensures
        path_le(a, c),
{
    if path_lt(a, b) && path_lt(b, c) {
        lemma_path_lt_transitive(a, b, c);
    }
}

/// A path that is not above another is below it or the same.
pub proof fn lemma_path_not_lt(a: Seq<char>, b: Seq<char>)
    ensures
        !path_lt(a, b) <==> path_le(b, a),
{
    lemma_path_order_total(a, b);
}

/// The bytes of two texts put together are the bytes of the first, then
/// those of the second.
pub proof fn lemma_path_bytes_concat(a: Seq<char>, b: Seq<char>)
    ensures
        path_bytes(a + b) == path_bytes(a) + path_bytes(b),
    decreases a.len(),
{
    if a.len() == 0 {
        assert(a + b =~= b);
        assert(path_bytes(a) + path_bytes(b) =~= path_bytes(b));
    } else {
        lemma_path_bytes_concat(a.drop_first(), b);
        assert((a + b).drop_first() =~= a.drop_first() + b);
        assert((a + b)[0] == a[0]);
        assert(path_bytes(a + b) =~= path_bytes(a) + path_bytes(b));
    }
}

/// The slash is one byte, the separator.
pub proof fn lemma_slash_is_separator()
    ensures
        path_bytes(seq!['/']) == seq![SEPARATOR],
{
    let slash = seq!['/'];
    assert('/' as u32 == 0x2f);
    assert((0x2fu32 & 0x7F) as u8 == 0x2fu8) by (bit_vector);
    assert(encode_scalar(0x2f) =~= seq![0x2fu8]);
    assert(slash.drop_first() =~= Seq::<char>::empty());
    assert(encode_utf8(slash.drop_first()) =~= Seq::<u8>::empty());
    assert(encode_utf8(slash) =~= encode_scalar(slash[0] as u32) + encode_utf8(slash.drop_first()));
    assert(path_bytes(slash) =~= seq![SEPARATOR]);
}

/// Bytes that begin with the bytes of a text, then the separator, are the
/// bytes of a text that begins with that text, then a slash.
proof fn lemma_bytes_prefix_is_text_prefix(dir: Seq<char>, path: Seq<char>)
    requires
        path_bytes(dir).len() < path_bytes(path).len(),
        forall|j: int| 0 <= j < path_bytes(dir).len() ==> path_bytes(path)[j] == path_bytes(dir)[j],
        path_bytes(path)[path_bytes(dir).len() as int] == SEPARATOR,
    ensures
        (dir + seq!['/']).is_prefix_of(path),
    decreases dir.len(),
{
    let d = path_bytes(dir);
    let p = path_bytes(path);
    assert(path.len() > 0);
    encode_utf8_first_scalar(path);
    if dir.len() == 0 {
        assert(d.len() == 0);
        assert(p[0] == 0x2fu8);
        assert(0x2fu8 & 0x7f == 0x2fu8) by (bit_vector);
        assert(decode_first_scalar(p) == 0x2f);
        char_u32_cast(path[0], 0x2fu32);
        assert(path[0] == '/');
        assert((dir + seq!['/']) =~= path.subrange(0, 1));
    } else {
        encode_utf8_first_scalar(dir);
        let w = length_of_first_scalar(d);
        assert(w <= d.len());
        assert(p[0] == d[0]);
        if w >= 2 {
            assert(p[1] == d[1]);
        }
        if w >= 3 {
            assert(p[2] == d[2]);
        }
        if w >= 4 {
            assert(p[3] == d[3]);
        }
        assert(decode_first_scalar(p) == decode_first_scalar(d));
        let code = decode_first_scalar(p);
        assert(code == path[0] as u32 && code == dir[0] as u32);
        char_u32_cast(path[0], code);
        char_u32_cast(dir[0], code);
        assert(path[0] == dir[0]);
        let first = encode_scalar(dir[0] as u32);
        let dir2 = dir.drop_first();
        let path2 = path.drop_first();
        let d2 = path_bytes(dir2);
        let p2 = path_bytes(path2);
        assert(d =~= first + d2);
        assert(p =~= first + p2);
        assert forall|j: int| 0 <= j < d2.len() implies p2[j] == d2[j] by {
            assert(p[j + first.len()] == p2[j]);
            assert(d[j + first.len()] == d2[j]);
        }
        assert(p2[d2.len() as int] == p[(d2.len() + first.len()) as int]);
        lemma_bytes_prefix_is_text_prefix(dir2, path2);
        let whole = dir + seq!['/'];
        let inner = dir2 + seq!['/'];
        assert(inner =~= path2.subrange(0, inner.len() as int));
        assert forall|i: int| 0 <= i < whole.len() implies whole[i] == path[i] by {
            if i > 0 {
                assert(whole[i] == inner[i - 1]);
                assert(inner[i - 1] == path2.subrange(0, inner.len() as int)[i - 1]);
                assert(path2[i - 1] == path[i]);
            }
        }
        assert(whole =~= path.subrange(0, whole.len() as int));
    }
}

/// A path is inside a directory exactly when its bytes begin with the bytes
/// of the directory followed by the separator.
pub proof fn lemma_inside_by_bytes(dir: Seq<char>, path: Seq<char>)
    ensures
        inside(dir, path) <==> bytes_inside(dir, path),
{
    let whole = dir + seq!['/'];
    if bytes_inside(dir, path) {
        lemma_bytes_prefix_is_text_prefix(dir, path);
    }
    if whole.is_prefix_of(path) {
        let rest = path.subrange(whole.len() as int, path.len() as int);
        assert(path =~= whole + rest);
        lemma_path_bytes_concat(whole, rest);
        lemma_path_bytes_concat(dir, seq!['/']);
        lemma_slash_is_separator();
        let d = path_bytes(dir);
        let p = path_bytes(path);
        assert(p =~= d + seq![SEPARATOR] + path_bytes(rest));
        assert(p[d.len() as int] == SEPARATOR);
    }
}

/// A directory sorts before everything inside it.
pub proof fn law_directory_sorts_first(dir: Seq<char>, path: Seq<char>)
    requires
        inside(dir, path),
    ensures
        path_lt(dir, path),
{
    let d = path_bytes(dir);
    let p = path_bytes(path);
    lemma_inside_by_bytes(dir, path);
    assert(agree_before(d, p, d.len() as int));
}

} // verus!
