use vstd::prelude::*;

verus! {

/// Lexicographic order on byte strings, comparing from position `i` on
/// (a proper prefix comes first).
pub open spec fn lt_from(a: Seq<u8>, b: Seq<u8>, i: int) -> bool
    decreases a.len() - i,
{
    if i >= a.len() {
        b.len() > i
    } else if i >= b.len() {
        false
    } else if a[i] != b[i] {
        a[i] < b[i]
    } else {
        lt_from(a, b, i + 1)
    }
}

/// `a` sorts strictly before `b`; for UTF-8 text this is the order of `str`.
pub open spec fn bytes_lt(a: Seq<u8>, b: Seq<u8>) -> bool {
    lt_from(a, b, 0)
}

pub proof fn lemma_lt_from_irreflexive(a: Seq<u8>, i: int)
    requires
        0 <= i,
    ensures
        !lt_from(a, a, i),
    decreases a.len() - i,
{
    if i < a.len() {
        lemma_lt_from_irreflexive(a, i + 1);
    }
}

pub proof fn lemma_lt_from_transitive(a: Seq<u8>, b: Seq<u8>, c: Seq<u8>, i: int)
    requires
        0 <= i,
        lt_from(a, b, i),
        lt_from(b, c, i),
    ensures
        lt_from(a, c, i),
    decreases a.len() - i,
{
    if i < a.len() && i < b.len() && i < c.len() && a[i] == b[i] && b[i] == c[i] {
        lemma_lt_from_transitive(a, b, c, i + 1);
    }
}

pub proof fn lemma_lt_from_total(a: Seq<u8>, b: Seq<u8>, i: int)
    requires
        0 <= i <= a.len(),
        i <= b.len(),
        a.subrange(0, i) == b.subrange(0, i),
        !lt_from(a, b, i),
        !lt_from(b, a, i),
    ensures
        a == b,
    decreases a.len() - i,
{
    if i < a.len() && i < b.len() {
        assert(a.subrange(0, i + 1) =~= a.subrange(0, i).push(a[i]));
        assert(b.subrange(0, i + 1) =~= b.subrange(0, i).push(b[i]));
        lemma_lt_from_total(a, b, i + 1);
    } else {
        assert(a =~= a.subrange(0, i));
        assert(b =~= b.subrange(0, i));
    }
}

/// Strict order on byte strings: irreflexive, transitive and total.
pub proof fn lemma_bytes_lt_strict_total_order(a: Seq<u8>, b: Seq<u8>, c: Seq<u8>)
    ensures
        !bytes_lt(a, a),
        bytes_lt(a, b) && bytes_lt(b, c) ==> bytes_lt(a, c),
        a == b || bytes_lt(a, b) || bytes_lt(b, a),
{
    lemma_lt_from_irreflexive(a, 0);
    if bytes_lt(a, b) && bytes_lt(b, c) {
        lemma_lt_from_transitive(a, b, c, 0);
    }
    if !bytes_lt(a, b) && !bytes_lt(b, a) {
        assert(a.subrange(0, 0) =~= b.subrange(0, 0));
        lemma_lt_from_total(a, b, 0);
    }
}

/// Three-way comparison of byte strings: negative, zero or positive as `a`
/// sorts before, equal to or after `b`.
pub fn compare_bytes(a: &[u8], b: &[u8]) -> (r: i8)
    ensures
        r < 0 <==> bytes_lt(a@, b@),
        r > 0 <==> bytes_lt(b@, a@),
        r == 0 <==> a@ == b@,
{
    proof {
        lemma_bytes_lt_strict_total_order(a@, b@, a@);
    }
    let mut i: usize = 0;
    while i < a.len() && i < b.len()
        invariant
            i <= a@.len(),
            i <= b@.len(),
            a@.subrange(0, i as int) == b@.subrange(0, i as int),
            bytes_lt(a@, b@) == lt_from(a@, b@, i as int),
            bytes_lt(b@, a@) == lt_from(b@, a@, i as int),
        decreases a@.len() - i,
    {
        if a[i] < b[i] {
            return -1;
        } else if a[i] > b[i] {
            return 1;
        }
        assert(a@.subrange(0, i + 1) =~= a@.subrange(0, i as int).push(a@[i as int]));
        assert(b@.subrange(0, i + 1) =~= b@.subrange(0, i as int).push(b@[i as int]));
        i = i + 1;
    }
    if a.len() < b.len() {
        -1
    } else if a.len() > b.len() {
        1
    } else {
        assert(a@ =~= a@.subrange(0, i as int));
        assert(b@ =~= b@.subrange(0, i as int));
        0
    }
}

} // verus!
