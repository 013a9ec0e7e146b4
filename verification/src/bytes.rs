//! Byte-string helpers: equality and lexicographic ordering over `Vec<u8>`,
//! and an order-stable sort used when folding state leaves into a commitment.

use vstd::prelude::*;
use vstd::multiset::Multiset;
use vstd::relations::total_ordering;
use vstd::relations::sorted_by;

verus! {

/// Byte-wise equality of two byte strings, decided without relying on any
/// derived `PartialEq` implementation.
pub fn bytes_eq(a: &Vec<u8>, b: &Vec<u8>) -> (r: bool)
    ensures
        r == (a@ == b@),
{
    if a.len() != b.len() {
        return false;
    }
    let n = a.len();
    let mut i: usize = 0;
    while i < n
        invariant
            n == a@.len(),
            n == b@.len(),
            i <= n,
            forall|j: int| 0 <= j < i ==> a@[j] == b@[j],
        decreases n - i,
    {
        if a[i] != b[i] {
            return false;
        }
        i += 1;
    }
    proof {
        assert(a@ =~= b@);
    }
    true
}

/// Lexicographic "less or equal" on byte strings; a proper prefix comes first.
pub open spec fn lex_leq(a: Seq<u8>, b: Seq<u8>) -> bool
    decreases a.len(),
{
    if a.len() == 0 {
        true
    } else if b.len() == 0 {
        false
    } else if a[0] < b[0] {
        true
    } else if a[0] > b[0] {
        false
    } else {
        lex_leq(a.drop_first(), b.drop_first())
    }
}

/// The closure form of `lex_leq`, as the sortedness predicates expect it.
pub open spec fn lex_leq_fn() -> spec_fn(Seq<u8>, Seq<u8>) -> bool {
    |a: Seq<u8>, b: Seq<u8>| lex_leq(a, b)
}

proof fn lemma_lex_leq_connected(a: Seq<u8>, b: Seq<u8>)
    ensures
        lex_leq(a, b) || lex_leq(b, a),
    decreases a.len(),
{
    if a.len() == 0 || b.len() == 0 {
    } else if a[0] == b[0] {
        lemma_lex_leq_connected(a.drop_first(), b.drop_first());
    }
}

proof fn lemma_lex_leq_antisymmetric(a: Seq<u8>, b: Seq<u8>)
    requires
        lex_leq(a, b),
        lex_leq(b, a),
    ensures
        a == b,
    decreases a.len(),
{
    if a.len() == 0 {
        assert(b.len() == 0);
        assert(a =~= b);
    } else {
        assert(a[0] == b[0]);
        lemma_lex_leq_antisymmetric(a.drop_first(), b.drop_first());
        assert(a =~= Seq::empty().push(a[0]) + a.drop_first());
        assert(b =~= Seq::empty().push(b[0]) + b.drop_first());
    }
}

proof fn lemma_lex_leq_transitive(a: Seq<u8>, b: Seq<u8>, c: Seq<u8>)
    requires
        lex_leq(a, b),
        lex_leq(b, c),
    ensures
        lex_leq(a, c),
    decreases a.len(),
{
    if a.len() == 0 || b.len() == 0 || c.len() == 0 {
    } else if a[0] == b[0] && b[0] == c[0] {
        lemma_lex_leq_transitive(a.drop_first(), b.drop_first(), c.drop_first());
    }
}

/// Lexicographic order on byte strings is a total ordering, which makes the
/// sorted form of a multiset of leaves unique.
pub proof fn lemma_lex_leq_total_ordering()
    ensures
        total_ordering(lex_leq_fn()),
{
    assert forall|a: Seq<u8>| #[trigger] lex_leq_fn()(a, a) by {
        lemma_lex_leq_connected(a, a);
    }
    assert forall|a: Seq<u8>, b: Seq<u8>|
        #[trigger] lex_leq_fn()(a, b) && #[trigger] lex_leq_fn()(b, a) implies a == b by {
        lemma_lex_leq_antisymmetric(a, b);
    }
    assert forall|a: Seq<u8>, b: Seq<u8>, c: Seq<u8>|
        #[trigger] lex_leq_fn()(a, b) && #[trigger] lex_leq_fn()(b, c) implies lex_leq_fn()(
        a,
        c,
    ) by {
        lemma_lex_leq_transitive(a, b, c);
    }
    assert forall|a: Seq<u8>, b: Seq<u8>| #[trigger] lex_leq_fn()(a, b) || #[trigger] lex_leq_fn()(
        b,
        a,
    ) by {
        lemma_lex_leq_connected(a, b);
    }
}

proof fn lemma_lex_leq_skip(a: Seq<u8>, b: Seq<u8>, i: int)
    requires
        0 <= i <= a.len(),
        i <= b.len(),
        forall|j: int| 0 <= j < i ==> a[j] == b[j],
    ensures
        lex_leq(a, b) == lex_leq(a.skip(i), b.skip(i)),
    decreases i,
{
    if i == 0 {
        assert(a.skip(0) =~= a);
        assert(b.skip(0) =~= b);
    } else {
        assert(a.len() > 0 && b.len() > 0 && a[0] == b[0]);
        assert(a.drop_first() =~= a.skip(1));
        assert(b.drop_first() =~= b.skip(1));
        assert(forall|j: int| 0 <= j < i - 1 ==> a.skip(1)[j] == b.skip(1)[j]);
        lemma_lex_leq_skip(a.skip(1), b.skip(1), i - 1);
        assert(a.skip(1).skip(i - 1) =~= a.skip(i));
        assert(b.skip(1).skip(i - 1) =~= b.skip(i));
    }
}

/// Decides `lex_leq` on the views of two byte strings.
pub fn bytes_le(a: &Vec<u8>, b: &Vec<u8>) -> (r: bool)
    ensures
        r == lex_leq(a@, b@),
{
    let mut i: usize = 0;
    let a_len = a.len();
    let b_len = b.len();
    loop
        invariant
            i <= a_len,
            i <= b_len,
            a_len == a@.len(),
            b_len == b@.len(),
            forall|j: int| 0 <= j < i ==> a@[j] == b@[j],
        decreases a_len - i,
    {
        proof {
            lemma_lex_leq_skip(a@, b@, i as int);
        }
        if i == a_len {
            return true;
        }
        if i == b_len {
            return false;
        }
        if a[i] < b[i] {
            return true;
        }
        if a[i] > b[i] {
            return false;
        }
        i += 1;
    }
}

/// The views of a vector of byte strings.
pub open spec fn views_of(s: Seq<Vec<u8>>) -> Seq<Seq<u8>> {
    s.map_values(|x: Vec<u8>| x@)
}

/// Sorts byte strings lexicographically by insertion, keeping exactly the
/// same multiset of values.
pub fn sort_bytes(v: Vec<Vec<u8>>) -> (r: Vec<Vec<u8>>)
    ensures
        sorted_by(views_of(r@), lex_leq_fn()),
        views_of(r@).to_multiset() == views_of(v@).to_multiset(),
        r@.len() == v@.len(),
{
    broadcast use vstd::multiset::group_multiset_axioms;

    let mut out: Vec<Vec<u8>> = Vec::new();
    let mut rest = v;
    proof {
        assert(views_of(out@) =~= Seq::<Seq<u8>>::empty());
        views_of(out@).to_multiset_ensures();
        assert(views_of(out@).to_multiset() =~= Multiset::<Seq<u8>>::empty());
        assert(views_of(out@).to_multiset().add(views_of(rest@).to_multiset()) =~= views_of(
            v@,
        ).to_multiset());
    }
    while rest.len() > 0
        invariant
            sorted_by(views_of(out@), lex_leq_fn()),
            views_of(out@).to_multiset().add(views_of(rest@).to_multiset()) == views_of(
                v@,
            ).to_multiset(),
            out@.len() + rest@.len() == v@.len(),
        decreases rest@.len(),
    {
        let ghost out_pre = out@;
        let ghost rest_pre = rest@;
        let x = rest.pop().unwrap();
        proof {
            assert(views_of(rest_pre) =~= views_of(rest@).push(x@));
            vstd::seq_lib::to_multiset_build(views_of(rest@), x@);
        }
        let j = find_insert_pos(&out, &x);
        proof {
            assert forall|k: int| j <= k < out@.len() implies lex_leq(
                x@,
                #[trigger] views_of(out@)[k],
            ) by {
                if k > j {
                    assert(lex_leq_fn()(views_of(out@)[j as int], views_of(out@)[k]));
                    lemma_lex_leq_transitive(x@, views_of(out@)[j as int], views_of(out@)[k]);
                }
            }
        }
        out.insert(j, x);
        proof {
            let s_new = views_of(out@);
            let s_old = views_of(out_pre);
            assert(s_new =~= s_old.insert(j as int, x@));
            vstd::seq_lib::to_multiset_insert(s_old, j as int, x@);
            assert forall|p: int, q: int| 0 <= p < q < s_new.len() implies lex_leq_fn()(
                s_new[p],
                s_new[q],
            ) by {
                let jj = j as int;
                if q < jj {
                    assert(lex_leq_fn()(s_old[p], s_old[q]));
                } else if p < jj && q == jj {
                    assert(lex_leq(s_old[p], x@));
                } else if p < jj && q > jj {
                    assert(lex_leq_fn()(s_old[p], s_old[q - 1]));
                } else if p == jj {
                    assert(lex_leq(x@, s_old[q - 1]));
                } else {
                    assert(lex_leq_fn()(s_old[p - 1], s_old[q - 1]));
                }
            }
            assert(views_of(out@).to_multiset().add(views_of(rest@).to_multiset()) =~= views_of(
                v@,
            ).to_multiset());
        }
    }
    proof {
        assert(rest@.len() == 0);
        assert(views_of(rest@) =~= Seq::<Seq<u8>>::empty());
        views_of(rest@).to_multiset_ensures();
        assert(views_of(rest@).to_multiset().len() == 0);
        assert(views_of(rest@).to_multiset() =~= Multiset::<Seq<u8>>::empty());
        assert(views_of(out@).to_multiset().add(Multiset::<Seq<u8>>::empty()) =~= views_of(
            out@,
        ).to_multiset());
    }
    out
}

/// The first position whose element does not precede `x`, so that inserting
/// `x` there keeps the vector sorted.
fn find_insert_pos(out: &Vec<Vec<u8>>, x: &Vec<u8>) -> (j: usize)
    ensures
        j <= out@.len(),
        forall|k: int| 0 <= k < j ==> lex_leq(#[trigger] views_of(out@)[k], x@),
        j < out@.len() ==> lex_leq(x@, views_of(out@)[j as int]),
{
    let mut j: usize = 0;
    while j < out.len()
        invariant
            j <= out@.len(),
            forall|k: int| 0 <= k < j ==> lex_leq(#[trigger] views_of(out@)[k], x@),
        decreases out@.len() - j,
    {
        if !bytes_le(&out[j], x) {
            proof {
                lemma_lex_leq_connected(views_of(out@)[j as int], x@);
            }
            return j;
        }
        j += 1;
    }
    j
}

/// Concatenation of a sequence of byte strings, the shape in which sorted
/// leaves are streamed into one hash.
pub open spec fn concat_all(s: Seq<Seq<u8>>) -> Seq<u8>
    decreases s.len(),
{
    if s.len() == 0 {
        Seq::empty()
    } else {
        s.first() + concat_all(s.drop_first())
    }
}

/// Appends every byte string in `parts`, in order, producing their
/// concatenation.
pub fn concat_bytes(parts: &Vec<Vec<u8>>) -> (r: Vec<u8>)
    ensures
        r@ == concat_all(views_of(parts@)),
{
    let mut out: Vec<u8> = Vec::new();
    let n = parts.len();
    let mut i: usize = 0;
    proof {
        assert(out@ =~= concat_all(views_of(parts@).take(0)));
    }
    while i < n
        invariant
            i <= n,
            n == parts@.len(),
            out@ == concat_all(views_of(parts@).take(i as int)),
        decreases n - i,
    {
        let ghost pre = out@;
        let part = &parts[i];
        let mut k: usize = 0;
        let m = part.len();
        while k < m
            invariant
                k <= m,
                m == part@.len(),
                part@ == parts@[i as int]@,
                out@ == pre + part@.take(k as int),
            decreases m - k,
        {
            out.push(part[k]);
            proof {
                assert(out@ =~= pre + part@.take(k as int + 1));
            }
            k += 1;
        }
        proof {
            assert(part@.take(m as int) =~= part@);
            lemma_concat_all_take_step(views_of(parts@), i as int);
        }
        i += 1;
    }
    proof {
        assert(views_of(parts@).take(n as int) =~= views_of(parts@));
    }
    out
}

pub proof fn lemma_concat_all_take_step(s: Seq<Seq<u8>>, i: int)
    requires
        0 <= i < s.len(),
    ensures
        concat_all(s.take(i + 1)) == concat_all(s.take(i)) + s[i],
    decreases i,
{
    if i == 0 {
        assert(s.take(1).len() == 1);
        assert(s.take(1).first() == s[0]);
        assert(s.take(1).drop_first() =~= Seq::<Seq<u8>>::empty());
        assert(concat_all(Seq::<Seq<u8>>::empty()) == Seq::<u8>::empty());
        assert(concat_all(s.take(1)) == s[0] + Seq::<u8>::empty());
        assert(s.take(0).len() == 0);
        assert(concat_all(s.take(0)) == Seq::<u8>::empty());
        assert(s[0] + Seq::<u8>::empty() =~= s[0]);
        assert(Seq::<u8>::empty() + s[0] =~= s[0]);
        assert(concat_all(s.take(1)) =~= concat_all(s.take(0)) + s[0]);
    } else {
        lemma_concat_all_take_step(s.drop_first(), i - 1);
        assert(s.take(i + 1).drop_first() =~= s.drop_first().take(i));
        assert(s.take(i).drop_first() =~= s.drop_first().take(i - 1));
        assert(s.take(i + 1).first() == s[0]);
        assert(s.take(i).first() == s[0]);
        assert(s.drop_first()[i - 1] == s[i]);
        assert(concat_all(s.take(i + 1)) == s[0] + concat_all(s.drop_first().take(i)));
        assert(concat_all(s.take(i)) == s[0] + concat_all(s.drop_first().take(i - 1)));
        assert(s[0] + (concat_all(s.drop_first().take(i - 1)) + s[i]) =~= (s[0] + concat_all(
            s.drop_first().take(i - 1),
        )) + s[i]);
    }
}

} // verus!
