use vstd::prelude::*;
use vstd::multiset::Multiset;

verus! {

broadcast use vstd::seq_lib::group_to_multiset_ensures, vstd::multiset::group_multiset_axioms;

/// Lexicographic byte order: the order `String` comparison gives file
/// names, so discovery is reproducible across runs.
pub open spec fn lex_le(a: Seq<u8>, b: Seq<u8>) -> bool
    decreases a.len(),
{
    if a.len() == 0 {
        true
    } else if b.len() == 0 {
        false
    } else if a[0] < b[0] {
        true
    } else if a[0] > b[0] {
        false
    } else {
        lex_le(a.drop_first(), b.drop_first())
    }
}

/// Any two byte sequences compare one way or the other.
pub proof fn lemma_lex_total(a: Seq<u8>, b: Seq<u8>)
    ensures
        lex_le(a, b) || lex_le(b, a),
    decreases a.len(),
{
    if a.len() > 0 && b.len() > 0 && a[0] == b[0] {
        lemma_lex_total(a.drop_first(), b.drop_first());
    }
}

/// Lexicographic order is transitive.
pub proof fn lemma_lex_trans(a: Seq<u8>, b: Seq<u8>, c: Seq<u8>)
    requires
        lex_le(a, b),
        lex_le(b, c),
    ensures
        lex_le(a, c),
    decreases a.len(),
{
    if a.len() > 0 && b.len() > 0 && c.len() > 0 && a[0] == b[0] && b[0] == c[0] {
        lemma_lex_trans(a.drop_first(), b.drop_first(), c.drop_first());
    }
}

/// Compares two names in lexicographic byte order.
pub fn lex_le_bytes(a: &Vec<u8>, b: &Vec<u8>) -> (r: bool)
    ensures
        r == lex_le(a@, b@),
{
    let mut i: usize = 0;
    proof {
        assert(a@.skip(0) =~= a@);
        assert(b@.skip(0) =~= b@);
    }
    while i < a.len() && i < b.len()
        invariant
            i <= a@.len(),
            i <= b@.len(),
            lex_le(a@, b@) == lex_le(a@.skip(i as int), b@.skip(i as int)),
        decreases a@.len() - i,
    {
        proof {
            assert(a@.skip(i as int)[0] == a@[i as int]);
            assert(b@.skip(i as int)[0] == b@[i as int]);
            assert(a@.skip(i as int).drop_first() =~= a@.skip(i as int + 1));
            assert(b@.skip(i as int).drop_first() =~= b@.skip(i as int + 1));
        }
        if a[i] < b[i] {
            return true;
        }
        if a[i] > b[i] {
            return false;
        }
        i = i + 1;
    }
    i == a.len()
}

/// The fixed name prefix of labeled sample files.
pub open spec fn learn_prefix() -> Seq<u8> {
    seq![108u8, 101u8, 97u8, 114u8, 110u8]
}

/// The fixed name suffix of labeled sample files.
pub open spec fn txt_suffix() -> Seq<u8> {
    seq![46u8, 116u8, 120u8, 116u8]
}

/// A labeled sample file's name starts with `learn` and ends with `.txt`.
pub open spec fn is_learn_name(n: Seq<u8>) -> bool {
    &&& n.len() >= 5
    &&& n.take(5) == learn_prefix()
    &&& n.skip(n.len() - 4) == txt_suffix()
}

fn is_learn_name_bytes(n: &Vec<u8>) -> (r: bool)
    ensures
        r == is_learn_name(n@),
{
    if n.len() < 5 {
        return false;
    }
    let p = n[0] == 108 && n[1] == 101 && n[2] == 97 && n[3] == 114 && n[4] == 110;
    if !p {
        proof {
            if n@.take(5) == learn_prefix() {
                assert(forall|i: int| 0 <= i < 5 ==> #[trigger] n@.take(5)[i] == n@[i]);
                assert(n@[0] == 108 && n@[1] == 101 && n@[2] == 97 && n@[3] == 114 && n@[4]
                    == 110);
            }
        }
        return false;
    }
    let m = n.len() - 4;
    let s = n[m] == 46 && n[m + 1] == 116 && n[m + 2] == 120 && n[m + 3] == 116;
    proof {
        assert(n@.take(5) =~= learn_prefix());
        let suf = n@.skip(n@.len() - 4);
        assert(forall|i: int| 0 <= i < 4 ==> #[trigger] suf[i] == n@[n@.len() - 4 + i]);
        if s {
            assert(suf =~= txt_suffix());
        } else {
            if suf == txt_suffix() {
                assert(n@[m as int] == 46 && n@[m as int + 1] == 116 && n@[m as int + 2] == 120
                    && n@[m as int + 3] == 116);
            }
        }
    }
    s
}

/// The names that follow the labeled-sample convention, in input order.
pub open spec fn learn_filter(names: Seq<Seq<u8>>) -> Seq<Seq<u8>>
    decreases names.len(),
{
    if names.len() == 0 {
        Seq::empty()
    } else {
        let rest = learn_filter(names.drop_last());
        if is_learn_name(names.last()) {
            rest.push(names.last())
        } else {
            rest
        }
    }
}

/// Non-decreasing in lexicographic order.
pub open spec fn sorted_names(s: Seq<Seq<u8>>) -> bool {
    forall|i: int, j: int| 0 <= i < j < s.len() ==> lex_le(#[trigger] s[i], #[trigger] s[j])
}

/// Keeps exactly the names of labeled sample files — those starting with
/// `learn` and ending with `.txt` — and returns them sorted in
/// lexicographic byte order, so that training visits files in a stable
/// order across runs. An input with no matching names yields an empty
/// result; the caller treats that as a user-facing error.
pub fn list_learn_files(names: &Vec<Vec<u8>>) -> (r: Vec<Vec<u8>>)
    ensures
        sorted_names(r@.map_values(|n: Vec<u8>| n@)),
        r@.map_values(|n: Vec<u8>| n@).to_multiset() == learn_filter(
            names@.map_values(|n: Vec<u8>| n@),
        ).to_multiset(),
        forall|i: int| 0 <= i < r@.len() ==> is_learn_name(#[trigger] r@[i]@),
{
    let ghost ns = names@.map_values(|n: Vec<u8>| n@);
    let mut kept: Vec<Vec<u8>> = Vec::new();
    let mut i: usize = 0;
    proof {
        assert(ns.take(0) =~= Seq::<Seq<u8>>::empty());
    }
    while i < names.len()
        invariant
            ns == names@.map_values(|n: Vec<u8>| n@),
            i <= ns.len(),
            kept@.map_values(|n: Vec<u8>| n@) == learn_filter(ns.take(i as int)),
            forall|j: int| 0 <= j < kept@.len() ==> is_learn_name(#[trigger] kept@[j]@),
        decreases ns.len() - i,
    {
        proof {
            assert(ns.take(i as int + 1).drop_last() =~= ns.take(i as int));
            assert(ns.take(i as int + 1).last() == ns[i as int]);
            assert(ns[i as int] == names@[i as int]@);
        }
        if is_learn_name_bytes(&names[i]) {
            let ghost old_kept = kept@;
            kept.push(names[i].clone());
            proof {
                assert(kept@.map_values(|n: Vec<u8>| n@) =~= old_kept.map_values(
                    |n: Vec<u8>| n@,
                ).push(ns[i as int]));
            }
        }
        i = i + 1;
    }
    proof {
        assert(ns.take(ns.len() as int) =~= ns);
    }
    let ghost target = learn_filter(ns).to_multiset();

    let mut rem = kept;
    let mut out: Vec<Vec<u8>> = Vec::new();
    while rem.len() > 0
        invariant
            target == learn_filter(ns).to_multiset(),
            out@.map_values(|n: Vec<u8>| n@).to_multiset().add(
                rem@.map_values(|n: Vec<u8>| n@).to_multiset(),
            ) == target,
            sorted_names(out@.map_values(|n: Vec<u8>| n@)),
            forall|oi: int, rj: int|
                0 <= oi < out@.len() && 0 <= rj < rem@.len() ==> lex_le(
                    #[trigger] out@[oi]@,
                    #[trigger] rem@[rj]@,
                ),
            forall|j: int| 0 <= j < out@.len() ==> is_learn_name(#[trigger] out@[j]@),
            forall|j: int| 0 <= j < rem@.len() ==> is_learn_name(#[trigger] rem@[j]@),
        decreases rem@.len(),
    {
        let mut m: usize = 0;
        let mut k: usize = 1;
        proof {
            lemma_lex_total(rem@[0]@, rem@[0]@);
        }
        while k < rem.len()
            invariant
                rem@.len() > 0,
                m < k <= rem@.len(),
                forall|j: int| 0 <= j < k ==> lex_le(rem@[m as int]@, #[trigger] rem@[j]@),
            decreases rem@.len() - k,
        {
            if !lex_le_bytes(&rem[m], &rem[k]) {
                proof {
                    lemma_lex_total(rem@[m as int]@, rem@[k as int]@);
                    assert forall|j: int| 0 <= j < k + 1 implies lex_le(
                        rem@[k as int]@,
                        #[trigger] rem@[j]@,
                    ) by {
                        if j < k {
                            lemma_lex_trans(rem@[k as int]@, rem@[m as int]@, rem@[j]@);
                        } else {
                            lemma_lex_total(rem@[k as int]@, rem@[k as int]@);
                        }
                    }
                }
                m = k;
            }
            k = k + 1;
        }
        proof {
            lemma_lex_total(rem@[m as int]@, rem@[m as int]@);
        }
        let ghost old_rem = rem@;
        let ghost old_out = out@;
        let x = rem.remove(m);
        out.push(x);
        proof {
            let v = |n: Vec<u8>| n@;
            assert(rem@.map_values(v) =~= old_rem.map_values(v).remove(m as int));
            assert(out@.map_values(v) =~= old_out.map_values(v).push(old_rem[m as int]@));
            let orm = old_rem.map_values(v);
            let oom = old_out.map_values(v);
            assert(orm.remove(m as int).to_multiset() =~= orm.to_multiset().remove(
                orm[m as int],
            ));
            assert(oom.push(orm[m as int]).to_multiset() =~= oom.to_multiset().insert(
                orm[m as int],
            ));
            assert(orm.to_multiset().count(orm[m as int]) > 0);
            assert(oom.to_multiset().insert(orm[m as int]).add(
                orm.to_multiset().remove(orm[m as int]),
            ) =~= oom.to_multiset().add(orm.to_multiset()));
            assert forall|oi: int, rj: int|
                0 <= oi < out@.len() && 0 <= rj < rem@.len() implies lex_le(
                #[trigger] out@[oi]@,
                #[trigger] rem@[rj]@,
            ) by {
                if oi < out@.len() - 1 {
                    assert(lex_le(out@[oi]@, old_rem[m as int]@));
                }
                let orig = if rj < m { rj } else { rj + 1 };
                assert(rem@[rj] == old_rem[orig]);
                if oi == out@.len() - 1 {
                    assert(out@[oi]@ == old_rem[m as int]@);
                    assert(lex_le(old_rem[m as int]@, old_rem[orig]@));
                } else {
                    assert(lex_le(out@[oi]@, old_rem[orig]@));
                }
            }
            assert(sorted_names(out@.map_values(v)));
        }
    }
    proof {
        assert(rem@.map_values(|n: Vec<u8>| n@).to_multiset() =~= Multiset::<Seq<u8>>::empty());
        assert(out@.map_values(|n: Vec<u8>| n@).to_multiset().add(
            Multiset::<Seq<u8>>::empty(),
        ) =~= out@.map_values(|n: Vec<u8>| n@).to_multiset());
    }
    out
}

} // verus!
