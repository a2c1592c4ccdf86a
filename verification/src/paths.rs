use vstd::prelude::*;
use vstd::string::StrSliceExecFns;

verus! {

// ---------------------------------------------------------------------------
// Lexicographic order on character sequences.
//
// Volume directories are kept strictly sorted in this order, which is what
// makes the visitation order of a scan deterministic.
// ---------------------------------------------------------------------------

/// Strict lexicographic order by character code point.
pub open spec fn lex_lt(a: Seq<char>, b: Seq<char>) -> bool
    decreases a.len(),
{
    if b.len() == 0 {
        false
    } else if a.len() == 0 {
        true
    } else if a[0] != b[0] {
        (a[0] as u32) < (b[0] as u32)
    } else {
        lex_lt(a.drop_first(), b.drop_first())
    }
}

proof fn lemma_char_cast_injective(c1: char, c2: char)
    requires
        c1 != c2,
    ensures
        c1 as u32 != c2 as u32,
{
}

pub proof fn lemma_lex_lt_irreflexive(a: Seq<char>)
    ensures
        !lex_lt(a, a),
    decreases a.len(),
{
    if a.len() > 0 {
        lemma_lex_lt_irreflexive(a.drop_first());
    }
}

pub proof fn lemma_lex_lt_asymmetric(a: Seq<char>, b: Seq<char>)
    requires
        lex_lt(a, b),
    ensures
        !lex_lt(b, a),
    decreases a.len(),
{
    if a.len() > 0 && b.len() > 0 && a[0] == b[0] {
        lemma_lex_lt_asymmetric(a.drop_first(), b.drop_first());
    }
}

pub proof fn lemma_lex_lt_total(a: Seq<char>, b: Seq<char>)
    requires
        !lex_lt(a, b),
        !lex_lt(b, a),
    ensures
        a == b,
    decreases a.len(),
{
    if a.len() == 0 || b.len() == 0 {
        assert(a =~= b);
    } else {
        assert(a[0] == b[0]) by {
            if a[0] != b[0] {
                lemma_char_cast_injective(a[0], b[0]);
                if (a[0] as u32) < (b[0] as u32) {
                    assert(lex_lt(a, b));
                } else {
                    assert((b[0] as u32) < (a[0] as u32));
                    assert(lex_lt(b, a));
                }
            }
        }
        lemma_lex_lt_total(a.drop_first(), b.drop_first());
        assert(a =~= seq![a[0]] + a.drop_first());
        assert(b =~= seq![b[0]] + b.drop_first());
    }
}

pub proof fn lemma_lex_lt_transitive(a: Seq<char>, b: Seq<char>, c: Seq<char>)
    requires
        lex_lt(a, b),
        lex_lt(b, c),
    ensures
        lex_lt(a, c),
    decreases a.len(),
{
    if a.len() > 0 && b.len() > 0 && c.len() > 0 && a[0] == b[0] && b[0] == c[0] {
        lemma_lex_lt_transitive(a.drop_first(), b.drop_first(), c.drop_first());
    }
}

/// With a common prefix of length `i`, the order is decided past it.
proof fn lemma_lex_lt_skip(a: Seq<char>, b: Seq<char>, i: int)
    requires
        0 <= i <= a.len(),
        i <= b.len(),
        forall|j: int| 0 <= j < i ==> a[j] == b[j],
    ensures
        lex_lt(a, b) == lex_lt(a.skip(i), b.skip(i)),
    decreases i,
{
    if i > 0 {
        assert(a[0] == b[0]);
        assert(a.drop_first().skip(i - 1) =~= a.skip(i));
        assert(b.drop_first().skip(i - 1) =~= b.skip(i));
        lemma_lex_lt_skip(a.drop_first(), b.drop_first(), i - 1);
        assert(lex_lt(a, b) == lex_lt(a.drop_first(), b.drop_first()));
    } else {
        assert(a.skip(0) =~= a);
        assert(b.skip(0) =~= b);
    }
}

/// Three-way comparison of two strings in lexicographic order:
/// `-1` when `a` comes first, `0` on equality, `1` when `b` comes first.
pub fn str_compare(a: &str, b: &str) -> (r: i8)
    ensures
        -1 <= r <= 1,
        (r == -1) <==> lex_lt(a@, b@),
        (r == 0) <==> a@ == b@,
        (r == 1) <==> lex_lt(b@, a@),
{
    let alen = a.unicode_len();
    let blen = b.unicode_len();
    let mut i: usize = 0;
    loop
        invariant
            i <= alen,
            i <= blen,
            alen == a@.len(),
            blen == b@.len(),
            forall|j: int| 0 <= j < i ==> a@[j] == b@[j],
        decreases alen - i,
    {
        proof {
            lemma_lex_lt_skip(a@, b@, i as int);
            lemma_lex_lt_skip(b@, a@, i as int);
        }
        if i == alen && i == blen {
            proof {
                assert(a@ =~= b@);
                lemma_lex_lt_irreflexive(a@);
            }
            return 0;
        }
        if i == alen {
            proof {
                assert(a@.skip(i as int).len() == 0);
                assert(b@.skip(i as int).len() > 0);
                assert(a@.len() != b@.len());
            }
            return -1;
        }
        if i == blen {
            return 1;
        }
        let ca = a.get_char(i);
        let cb = b.get_char(i);
        if (ca as u32) < (cb as u32) {
            proof {
                assert(a@.skip(i as int)[0] == a@[i as int]);
                assert(b@.skip(i as int)[0] == b@[i as int]);
                lemma_lex_lt_asymmetric(a@, b@);
            }
            return -1;
        }
        if (ca as u32) > (cb as u32) {
            proof {
                assert(a@.skip(i as int)[0] == a@[i as int]);
                assert(b@.skip(i as int)[0] == b@[i as int]);
                lemma_lex_lt_asymmetric(b@, a@);
            }
            return 1;
        }
        proof {
            assert(a@[i as int] == b@[i as int]) by {
                assert(a@[i as int] as u32 == b@[i as int] as u32);
            }
        }
        i = i + 1;
    }
}

// ---------------------------------------------------------------------------
// Path structure: parent directory and member-file extension.
//
// Paths are plain strings with `/` as the separator, as a filesystem walk
// hands them over.
// ---------------------------------------------------------------------------

/// Index of the last occurrence of `c` in `s`, or `-1` when absent.
pub open spec fn last_index_of(s: Seq<char>, c: char) -> int
    decreases s.len(),
{
    if s.len() == 0 {
        -1
    } else if s[s.len() - 1] == c {
        s.len() - 1
    } else {
        last_index_of(s.drop_last(), c)
    }
}

pub proof fn lemma_last_index_of(s: Seq<char>, c: char)
    ensures
        -1 <= last_index_of(s, c) < s.len(),
        last_index_of(s, c) >= 0 ==> s[last_index_of(s, c)] == c,
        forall|j: int| last_index_of(s, c) < j < s.len() ==> s[j] != c,
    decreases s.len(),
{
    if s.len() > 0 && s[s.len() - 1] != c {
        lemma_last_index_of(s.drop_last(), c);
        assert(forall|j: int|
            last_index_of(s, c) < j < s.len() - 1 ==> s[j] == s.drop_last()[j]);
    }
}

/// Extending a sequence by one character moves or keeps the last occurrence.
proof fn lemma_last_index_of_push(s: Seq<char>, x: char, c: char)
    ensures
        last_index_of(s.push(x), c) == if x == c {
            s.len() as int
        } else {
            last_index_of(s, c)
        },
{
    assert(s.push(x).drop_last() =~= s);
}

/// The path up to (excluding) the last separator; empty when the path holds
/// no separator.
pub open spec fn parent_of(p: Seq<char>) -> Seq<char> {
    if last_index_of(p, '/') < 0 {
        Seq::empty()
    } else {
        p.take(last_index_of(p, '/'))
    }
}

/// The path after the last separator; the whole path when it has none.
pub open spec fn file_name_of(p: Seq<char>) -> Seq<char> {
    p.skip(last_index_of(p, '/') + 1)
}

/// The extension of a file name: what follows its last dot, unless the dot
/// leads the name or is absent.
pub open spec fn extension_of(name: Seq<char>) -> Option<Seq<char>> {
    if last_index_of(name, '.') <= 0 {
        None
    } else {
        Some(name.skip(last_index_of(name, '.') + 1))
    }
}

/// Whether a path names a volume member file: extension `dcm`.
pub open spec fn is_member_path(p: Seq<char>) -> bool {
    extension_of(file_name_of(p)) == Some(seq!['d', 'c', 'm'])
}

/// Position of the last occurrence of `c`, as an executable search.
fn find_last_char(s: &str, c: char) -> (r: Option<usize>)
    ensures
        match r {
            Some(i) => i < s@.len() && last_index_of(s@, c) == i as int,
            None => last_index_of(s@, c) == -1,
        },
{
    let n = s.unicode_len();
    let mut best: Option<usize> = None;
    let mut i: usize = 0;
    while i < n
        invariant
            i <= n,
            n == s@.len(),
            match best {
                Some(k) => k < i && last_index_of(s@.take(i as int), c) == k as int,
                None => last_index_of(s@.take(i as int), c) == -1,
            },
        decreases n - i,
    {
        let ch = s.get_char(i);
        proof {
            assert(s@.take(i as int).push(s@[i as int]) =~= s@.take(i + 1 as int));
            lemma_last_index_of_push(s@.take(i as int), s@[i as int], c);
        }
        if ch == c {
            best = Some(i);
        }
        i = i + 1;
    }
    proof {
        assert(s@.take(n as int) =~= s@);
    }
    best
}

/// The parent directory of a path, as [`parent_of`] describes it.
pub fn parent_dir(path: &str) -> (r: String)
    ensures
        r@ == parent_of(path@),
{
    match find_last_char(path, '/') {
        Some(i) => path.substring_char(0, i).to_owned(),
        None => String::new(),
    }
}

/// Relates the last occurrence in a suffix to the one in the whole sequence.
proof fn lemma_last_index_of_skip(s: Seq<char>, c: char, k: int)
    requires
        0 <= k <= s.len(),
    ensures
        last_index_of(s.skip(k), c) == if last_index_of(s, c) >= k {
            last_index_of(s, c) - k
        } else {
            -1
        },
    decreases s.len(),
{
    lemma_last_index_of(s, c);
    lemma_last_index_of(s.skip(k), c);
    if s.len() > 0 && k < s.len() {
        assert(s.skip(k)[s.len() - k - 1] == s[s.len() - 1]);
        if s[s.len() - 1] != c {
            assert(s.drop_last().skip(k) =~= s.skip(k).drop_last());
            lemma_last_index_of_skip(s.drop_last(), c, k);
        }
    } else if k == s.len() {
        assert(s.skip(k) =~= Seq::<char>::empty());
    }
}

/// Whether a path names a volume member file, as an executable test of
/// [`is_member_path`].
pub fn is_member_file(path: &str) -> (r: bool)
    ensures
        r == is_member_path(path@),
{
    let n = path.unicode_len();
    let start: usize = match find_last_char(path, '/') {
        Some(i) => i + 1,
        None => 0,
    };
    proof {
        lemma_last_index_of(path@, '/');
        assert(start as int == last_index_of(path@, '/') + 1);
        lemma_last_index_of_skip(path@, '.', start as int);
    }
    let ghost name = file_name_of(path@);
    match find_last_char(path, '.') {
        None => {
            proof {
                assert(extension_of(name) is None);
            }
            false
        },
        Some(d) => {
            if d <= start {
                proof {
                    assert(last_index_of(name, '.') <= 0);
                }
                false
            } else {
                proof {
                    assert(last_index_of(name, '.') == d - start > 0);
                    assert(name.skip(d - start + 1) =~= path@.skip(d + 1));
                    assert(extension_of(name) == Some(path@.skip(d + 1)));
                }
                if n - d - 1 != 3 {
                    proof {
                        assert(path@.skip(d + 1).len() != 3);
                    }
                    false
                } else {
                    let c1 = path.get_char(d + 1);
                    let c2 = path.get_char(d + 2);
                    let c3 = path.get_char(d + 3);
                    let r = c1 == 'd' && c2 == 'c' && c3 == 'm';
                    proof {
                        let ext = path@.skip(d + 1);
                        assert(ext.len() == 3);
                        assert(ext[0] == path@[d + 1]);
                        assert(ext[1] == path@[d + 2]);
                        assert(ext[2] == path@[d + 3]);
                        if r {
                            assert(ext =~= seq!['d', 'c', 'm']);
                        } else {
                            assert(ext != seq!['d', 'c', 'm']);
                        }
                    }
                    r
                }
            }
        },
    }
}

} // verus!
