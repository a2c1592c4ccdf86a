use vstd::prelude::*;
use crate::paths::{
    is_member_path, is_member_file, lex_lt, parent_of, parent_dir, str_compare,
    lemma_lex_lt_irreflexive, lemma_lex_lt_asymmetric,
    lemma_lex_lt_transitive,
};

verus! {

// ---------------------------------------------------------------------------
// The volume index: the parent directories of all member files under a root,
// deduplicated and strictly sorted so that scans visit volumes in a stable,
// reproducible order.
// ---------------------------------------------------------------------------

/// Strictly ascending in lexicographic order; in particular duplicate-free.
pub open spec fn strictly_sorted(dirs: Seq<Seq<char>>) -> bool {
    forall|i: int, j: int| 0 <= i < j < dirs.len() ==> lex_lt(dirs[i], dirs[j])
}

/// The parent directories of the volume member files among `paths`.
pub open spec fn member_parents(paths: Seq<Seq<char>>) -> Set<Seq<char>> {
    Set::new(
        |d: Seq<char>|
            exists|i: int|
                0 <= i < paths.len() && is_member_path(#[trigger] paths[i]) && parent_of(
                    paths[i],
                ) == d,
    )
}

/// What it means for `dirs` to be the volume index of the walked `paths`:
/// exactly the parent directories of the member files, strictly sorted.
pub open spec fn is_volume_index(paths: Seq<Seq<char>>, dirs: Seq<Seq<char>>) -> bool {
    &&& strictly_sorted(dirs)
    &&& dirs.to_set() == member_parents(paths)
}

/// Inserting an element at its ordered position keeps the sequence strictly
/// sorted and adds exactly that element to its contents.
proof fn lemma_insert_sorted(s: Seq<Seq<char>>, d: Seq<char>, i: int)
    requires
        strictly_sorted(s),
        0 <= i <= s.len(),
        forall|j: int| 0 <= j < i ==> lex_lt(#[trigger] s[j], d),
        i < s.len() ==> lex_lt(d, s[i]),
    ensures
        strictly_sorted(s.insert(i, d)),
        s.insert(i, d).to_set() == s.to_set().insert(d),
{
    let t = s.insert(i, d);
    assert forall|p: int, q: int| 0 <= p < q < t.len() implies lex_lt(t[p], t[q]) by {
        if p < i && q > i {
            if i < s.len() {
                if q - 1 > i {
                    lemma_lex_lt_transitive(d, s[i], s[q - 1]);
                }
                lemma_lex_lt_transitive(s[p], d, s[q - 1]);
            } else {
                assert(q - 1 < s.len());
                lemma_lex_lt_transitive(s[p], d, s[q - 1]);
            }
        } else if p == i && q > i && q - 1 > i {
            lemma_lex_lt_transitive(d, s[i], s[q - 1]);
        }
    }
    assert(t.to_set() =~= s.to_set().insert(d)) by {
        assert forall|x: Seq<char>| t.to_set().contains(x) implies s.to_set().contains(x) || x
            == d by {
            let k = choose|k: int| 0 <= k < t.len() && t[k] == x;
            if k < i {
                assert(s[k] == x);
            } else if k > i {
                assert(s[k - 1] == x);
            }
        }
        assert forall|x: Seq<char>| s.to_set().contains(x) implies t.to_set().contains(x) by {
            let k = choose|k: int| 0 <= k < s.len() && s[k] == x;
            if k < i {
                assert(t[k] == x);
            } else {
                assert(t[k + 1] == x);
            }
        }
        assert(t[i] == d);
    }
}

/// Inserts `d` into a strictly sorted list of directories, keeping it sorted
/// and ignoring a duplicate.
fn insert_sorted(dirs: &mut Vec<String>, d: String)
    requires
        strictly_sorted(old(dirs).deep_view()),
    ensures
        strictly_sorted(final(dirs).deep_view()),
        final(dirs).deep_view().to_set() == old(dirs).deep_view().to_set().insert(d@),
{
    let ghost s = dirs.deep_view();
    let mut i: usize = 0;
    loop
        invariant
            i <= dirs.len(),
            dirs.deep_view() == s,
            old(dirs).deep_view() == s,
            strictly_sorted(s),
            forall|j: int| 0 <= j < i ==> lex_lt(#[trigger] s[j], d@),
        decreases dirs.len() - i,
    {
        if i == dirs.len() {
            proof {
                lemma_insert_sorted(s, d@, i as int);
            }
            dirs.insert(i, d);
            proof {
                assert(dirs.deep_view() =~= s.insert(i as int, d@));
            }
            return;
        }
        let c = str_compare(dirs[i].as_str(), d.as_str());
        if c == 0 {
            proof {
                assert(s[i as int] == d@);
                assert(s.to_set().insert(d@) =~= s.to_set());
            }
            return;
        }
        if c == 1 {
            proof {
                lemma_insert_sorted(s, d@, i as int);
            }
            dirs.insert(i, d);
            proof {
                assert(dirs.deep_view() =~= s.insert(i as int, d@));
            }
            return;
        }
        i = i + 1;
    }
}

/// Builds the volume index of the walked `entries`: the parent directory of
/// every member file, each listed once, strictly sorted.
pub fn build_volume_index(entries: &Vec<String>) -> (dirs: Vec<String>)
    ensures
        is_volume_index(entries.deep_view(), dirs.deep_view()),
{
    let ghost all = entries.deep_view();
    let mut dirs: Vec<String> = Vec::new();
    let mut k: usize = 0;
    proof {
        assert(dirs.deep_view() =~= Seq::<Seq<char>>::empty());
        assert(dirs.deep_view().to_set() =~= member_parents(all.take(0)));
    }
    while k < entries.len()
        invariant
            k <= entries.len(),
            all == entries.deep_view(),
            strictly_sorted(dirs.deep_view()),
            dirs.deep_view().to_set() == member_parents(all.take(k as int)),
        decreases entries.len() - k,
    {
        let ghost before = dirs.deep_view().to_set();
        let e = &entries[k];
        let member = is_member_file(e.as_str());
        if member {
            let p = parent_dir(e.as_str());
            insert_sorted(&mut dirs, p);
        }
        proof {
            let tk = all.take(k as int);
            let tk1 = all.take(k + 1 as int);
            assert(forall|i: int| 0 <= i < tk1.len() ==> tk1[i] == all[i]);
            assert(tk1[k as int] == all[k as int]);
            assert(all[k as int] == e@);
            if member {
                assert(dirs.deep_view().to_set() =~= member_parents(tk1)) by {
                    assert(dirs.deep_view().to_set() == before.insert(parent_of(e@)));
                    assert forall|d: Seq<char>| member_parents(tk1).contains(d) implies before.insert(
                        parent_of(e@),
                    ).contains(d) by {
                        let i = choose|i: int|
                            0 <= i < tk1.len() && is_member_path(#[trigger] tk1[i]) && parent_of(
                                tk1[i],
                            ) == d;
                        if i < k {
                            assert(tk[i] == tk1[i]);
                            assert(member_parents(tk).contains(d));
                        }
                    }
                    assert forall|d: Seq<char>| before.insert(parent_of(e@)).contains(d) implies
                        member_parents(tk1).contains(d) by {
                        if before.contains(d) {
                            let i = choose|i: int|
                                0 <= i < tk.len() && is_member_path(#[trigger] tk[i]) && parent_of(
                                    tk[i],
                                ) == d;
                            assert(tk1[i] == tk[i]);
                        } else {
                            assert(is_member_path(tk1[k as int]));
                        }
                    }
                }
            } else {
                assert(dirs.deep_view().to_set() =~= member_parents(tk1)) by {
                    assert forall|d: Seq<char>| member_parents(tk1).contains(d) implies
                        member_parents(tk).contains(d) by {
                        let i = choose|i: int|
                            0 <= i < tk1.len() && is_member_path(#[trigger] tk1[i]) && parent_of(
                                tk1[i],
                            ) == d;
                        assert(i != k);
                        assert(tk[i] == tk1[i]);
                    }
                    assert forall|d: Seq<char>| member_parents(tk).contains(d) implies
                        member_parents(tk1).contains(d) by {
                        let i = choose|i: int|
                            0 <= i < tk.len() && is_member_path(#[trigger] tk[i]) && parent_of(
                                tk[i],
                            ) == d;
                        assert(tk1[i] == tk[i]);
                    }
                }
            }
        }
        k = k + 1;
    }
    proof {
        assert(all.take(entries.len() as int) =~= all);
    }
    dirs
}

/// A strictly sorted sequence is determined by its contents.
proof fn lemma_strictly_sorted_unique(a: Seq<Seq<char>>, b: Seq<Seq<char>>)
    requires
        strictly_sorted(a),
        strictly_sorted(b),
        a.to_set() == b.to_set(),
    ensures
        a == b,
    decreases a.len(),
{
    if a.len() == 0 {
        if b.len() > 0 {
            assert(b.to_set().contains(b[0]));
            assert(a.to_set().contains(b[0]));
        }
        assert(a =~= b);
    } else if b.len() == 0 {
        assert(a.to_set().contains(a[0]));
        assert(b.to_set().contains(a[0]));
        assert(a =~= b);
    } else {
        assert(b.to_set().contains(a[0]));
        assert(a.to_set().contains(b[0]));
        let j = choose|j: int| 0 <= j < b.len() && b[j] == a[0];
        let i = choose|i: int| 0 <= i < a.len() && a[i] == b[0];
        assert(a[0] == b[0]) by {
            if i > 0 && j > 0 {
                assert(lex_lt(a[0], a[i]));
                assert(lex_lt(b[0], b[j]));
                lemma_lex_lt_asymmetric(a[0], b[0]);
            }
        }
        lemma_head_not_in_tail(a);
        lemma_head_not_in_tail(b);
        assert(a.drop_first().to_set() =~= a.to_set().remove(a[0]));
        assert(b.drop_first().to_set() =~= b.to_set().remove(b[0]));
        assert(strictly_sorted(a.drop_first())) by {
            assert(forall|p: int, q: int|
                0 <= p < q < a.drop_first().len() ==> lex_lt(
                    #[trigger] a.drop_first()[p],
                    #[trigger] a.drop_first()[q],
                ));
        }
        assert(strictly_sorted(b.drop_first())) by {
            assert(forall|p: int, q: int|
                0 <= p < q < b.drop_first().len() ==> lex_lt(
                    #[trigger] b.drop_first()[p],
                    #[trigger] b.drop_first()[q],
                ));
        }
        lemma_strictly_sorted_unique(a.drop_first(), b.drop_first());
        assert(a =~= seq![a[0]] + a.drop_first());
        assert(b =~= seq![b[0]] + b.drop_first());
    }
}

/// In a strictly sorted sequence the head appears nowhere else, so the tail's
/// contents are the contents without the head.
proof fn lemma_head_not_in_tail(a: Seq<Seq<char>>)
    requires
        strictly_sorted(a),
        a.len() > 0,
    ensures
        a.drop_first().to_set() == a.to_set().remove(a[0]),
{
    assert forall|k: int| 0 <= k < a.drop_first().len() implies a.drop_first()[k] != a[0] by {
        assert(lex_lt(a[0], a[k + 1]));
        lemma_lex_lt_irreflexive(a[0]);
    }
    assert(a.drop_first().to_set() =~= a.to_set().remove(a[0])) by {
        assert forall|x: Seq<char>| a.drop_first().to_set().contains(x) implies a.to_set().remove(
            a[0],
        ).contains(x) by {
            let k = choose|k: int| 0 <= k < a.drop_first().len() && a.drop_first()[k] == x;
            assert(a[k + 1] == x);
        }
        assert forall|x: Seq<char>| a.to_set().remove(a[0]).contains(x) implies
            a.drop_first().to_set().contains(x) by {
            let k = choose|k: int| 0 <= k < a.len() && a[k] == x;
            assert(k != 0);
            assert(a.drop_first()[k - 1] == x);
        }
    }
}

/// The volume index of a set of walked paths is unique: two scans of the
/// same directory tree visit the same volumes in the same order.
pub proof fn lemma_index_deterministic(
    paths: Seq<Seq<char>>,
    d1: Seq<Seq<char>>,
    d2: Seq<Seq<char>>,
)
    requires
        is_volume_index(paths, d1),
        is_volume_index(paths, d2),
    ensures
        d1 == d2,
{
    lemma_strictly_sorted_unique(d1, d2);
}

/// Keeps exactly the member files of a directory listing, in listing order.
pub fn filter_members(paths: &Vec<String>) -> (r: Vec<String>)
    ensures
        r.deep_view() == paths.deep_view().filter(|p: Seq<char>| is_member_path(p)),
{
    let ghost all = paths.deep_view();
    let ghost pred = |p: Seq<char>| is_member_path(p);
    let mut r: Vec<String> = Vec::new();
    let mut k: usize = 0;
    proof {
        reveal(Seq::filter);
        assert(r.deep_view() =~= Seq::<Seq<char>>::empty());
        assert(all.take(0) =~= Seq::<Seq<char>>::empty());
    }
    while k < paths.len()
        invariant
            k <= paths.len(),
            all == paths.deep_view(),
            r.deep_view() == all.take(k as int).filter(|p: Seq<char>| is_member_path(p)),
        decreases paths.len() - k,
    {
        let ghost rv = r.deep_view();
        let e = &paths[k];
        if is_member_file(e.as_str()) {
            r.push(e.clone());
        }
        proof {
            reveal(Seq::filter);
            let tk1 = all.take(k + 1 as int);
            assert(tk1.drop_last() =~= all.take(k as int));
            assert(tk1.last() == all[k as int]);
            assert(all[k as int] == e@);
            if is_member_path(e@) {
                assert(r.deep_view() =~= rv.push(e@));
            }
        }
        k = k + 1;
    }
    proof {
        assert(all.take(paths.len() as int) =~= all);
    }
    r
}

} // verus!
