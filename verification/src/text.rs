use vstd::prelude::*;

verus! {

/// Index of the last occurrence of `c` in `s`, or -1 when `c` is absent.
pub open spec fn last_index_of(s: Seq<char>, c: char) -> int
    decreases s.len(),
{
    if s.len() == 0 {
        -1
    } else if s.last() == c {
        s.len() - 1
    } else {
        last_index_of(s.drop_last(), c)
    }
}

/// What `last_index_of` finds: a position of `c` with nothing but other
/// characters after it, or -1 when no position holds `c`.
pub proof fn lemma_last_index_of(s: Seq<char>, c: char)
    ensures
        -1 <= last_index_of(s, c) < s.len(),
        last_index_of(s, c) >= 0 ==> s[last_index_of(s, c)] == c,
        forall|k: int| last_index_of(s, c) < k < s.len() ==> s[k] != c,
    decreases s.len(),
{
    if s.len() > 0 {
        lemma_last_index_of(s.drop_last(), c);
        if s.last() != c {
            assert forall|k: int| last_index_of(s, c) < k < s.len() implies s[k] != c by {
                if k < s.len() - 1 {
                    assert(s.drop_last()[k] == s[k]);
                }
            }
        }
    }
}

/// Index of the first occurrence of `c` in `s`, or -1 when `c` is absent.
pub open spec fn first_index_of(s: Seq<char>, c: char) -> int
    decreases s.len(),
{
    if s.len() == 0 {
        -1
    } else if s[0] == c {
        0
    } else {
        let r = first_index_of(s.drop_first(), c);
        if r < 0 {
            -1
        } else {
            r + 1
        }
    }
}

/// What `first_index_of` finds: the least position of `c`, or -1 when no
/// position holds `c`.
pub proof fn lemma_first_index_of(s: Seq<char>, c: char)
    ensures
        -1 <= first_index_of(s, c) < s.len(),
        first_index_of(s, c) >= 0 ==> s[first_index_of(s, c)] == c,
        forall|k: int| 0 <= k < first_index_of(s, c) ==> s[k] != c,
        first_index_of(s, c) == -1 ==> forall|k: int| 0 <= k < s.len() ==> s[k] != c,
    decreases s.len(),
{
    if s.len() > 0 && s[0] != c {
        let rest = s.drop_first();
        lemma_first_index_of(rest, c);
        let f = first_index_of(s, c);
        assert forall|k: int| 0 <= k < f implies s[k] != c by {
            if k > 0 {
                assert(rest[k - 1] == s[k]);
            }
        }
        if f == -1 {
            assert forall|k: int| 0 <= k < s.len() implies s[k] != c by {
                if k > 0 {
                    assert(rest[k - 1] == s[k]);
                }
            }
        }
    }
}

/// Position of the first occurrence of `c` at or after `from`, if any.
pub fn find_char_from(s: &str, from: usize, c: char) -> (r: Option<usize>)
    requires
        from <= s@.len(),
    ensures
        r matches Some(i) ==> from <= i < s@.len() && first_index_of(
            s@.subrange(from as int, s@.len() as int),
            c,
        ) == i - from,
        r is None ==> first_index_of(s@.subrange(from as int, s@.len() as int), c) == -1,
{
    let ghost suffix = s@.subrange(from as int, s@.len() as int);
    let n = s.unicode_len();
    let mut i = from;
    while i < n
        invariant
            from <= i <= n,
            n == s@.len(),
            suffix == s@.subrange(from as int, s@.len() as int),
            forall|k: int| from <= k < i ==> s@[k] != c,
        decreases n - i,
    {
        if s.get_char(i) == c {
            proof {
                lemma_first_index_of(suffix, c);
                assert(suffix[i - from] == s@[i as int]);
                assert(forall|k: int| 0 <= k < i - from ==> suffix[k] == s@[k + from]);
            }
            return Some(i);
        }
        i = i + 1;
    }
    proof {
        lemma_first_index_of(suffix, c);
        assert(forall|k: int| 0 <= k < suffix.len() ==> suffix[k] == s@[k + from]);
        if first_index_of(suffix, c) >= 0 {
            assert(suffix[first_index_of(suffix, c)] == c);
        }
    }
    None
}

/// Relies on String::push: it appends the one character to the string.
#[verifier::external_body]
pub fn push_char(s: &mut String, c: char)
    ensures
        final(s)@ == old(s)@ + seq![c],
{
    s.push(c);
}

/// The part of the path after its last separator; the whole path when it
/// has none.
pub open spec fn file_name_spec(p: Seq<char>) -> Seq<char> {
    p.subrange(last_index_of(p, '/') + 1, p.len() as int)
}

/// The extension of the path: what follows the last dot of its file name,
/// unless the only dot opens the name (a hidden file) or the name has none.
pub open spec fn extension_spec(p: Seq<char>) -> Option<Seq<char>> {
    let name = file_name_spec(p);
    let d = last_index_of(name, '.');
    if d <= 0 {
        None
    } else {
        Some(name.subrange(d + 1, name.len() as int))
    }
}

/// An ASCII capital letter mapped to its small form; all else unchanged.
pub open spec fn lower_char(c: char) -> char {
    if 'A' <= c && c <= 'Z' {
        (((c as u8) + 32) as u8) as char
    } else {
        c
    }
}

/// The sequence with each character mapped through `lower_char`.
pub open spec fn lower_seq(s: Seq<char>) -> Seq<char> {
    s.map_values(|c: char| lower_char(c))
}

/// Position of the last occurrence of `c`, scanning from the end.
pub fn find_last_char(s: &str, c: char) -> (r: Option<usize>)
    ensures
        r matches Some(i) ==> i < s@.len() && last_index_of(s@, c) == i as int,
        r is None ==> last_index_of(s@, c) == -1,
{
    let n = s.unicode_len();
    let mut i = n;
    while i > 0
        invariant
            i <= n,
            n == s@.len(),
            forall|k: int| i <= k < n ==> s@[k] != c,
        decreases i,
    {
        let j = i - 1;
        if s.get_char(j) == c {
            proof {
                lemma_last_index_of(s@, c);
            }
            return Some(j);
        }
        i = j;
    }
    proof {
        lemma_last_index_of(s@, c);
    }
    None
}

/// The character range `[from, to)` of the extension, when the path has
/// one.
pub fn extension_range(path: &str) -> (r: Option<(usize, usize)>)
    ensures
        r is None ==> extension_spec(path@) is None,
        r matches Some(pair) ==> pair.0 <= pair.1 <= path@.len() && extension_spec(path@)
            == Some(path@.subrange(pair.0 as int, pair.1 as int)),
{
    let n = path.unicode_len();
    let start = match find_last_char(path, '/') {
        Some(i) => i + 1,
        None => 0,
    };
    let name = path.substring_char(start, n);
    proof {
        assert(name@ == file_name_spec(path@));
    }
    match find_last_char(name, '.') {
        None => None,
        Some(d) => {
            if d == 0 {
                None
            } else {
                proof {
                    assert(name@.subrange(d + 1, name@.len() as int) =~= path@.subrange(
                        start + d + 1,
                        n as int,
                    ));
                }
                Some((start + d + 1, n))
            }
        },
    }
}

/// Whether the characters `[from, to)` of `s`, taken to lower case, equal
/// the literal.
pub fn range_lower_eq(s: &str, from: usize, to: usize, lit: &str) -> (r: bool)
    requires
        from <= to <= s@.len(),
    ensures
        r == (lower_seq(s@.subrange(from as int, to as int)) == lit@),
{
    let n = to - from;
    if lit.unicode_len() != n {
        proof {
            assert(lower_seq(s@.subrange(from as int, to as int)).len() == n);
        }
        return false;
    }
    let mut k: usize = 0;
    while k < n
        invariant
            k <= n,
            n == to - from,
            from <= to <= s@.len(),
            n == lit@.len(),
            forall|j: int|
                0 <= j < k ==> lower_char(s@.subrange(from as int, to as int)[j]) == lit@[j],
        decreases n - k,
    {
        let c = lower_char_exec(s.get_char(from + k));
        if c != lit.get_char(k) {
            proof {
                assert(lower_seq(s@.subrange(from as int, to as int))[k as int] != lit@[k as int]);
            }
            return false;
        }
        k = k + 1;
    }
    proof {
        assert(lower_seq(s@.subrange(from as int, to as int)) =~= lit@);
    }
    true
}

/// An ASCII capital letter mapped to its small form; all else unchanged.
pub fn lower_char_exec(c: char) -> (r: char)
    ensures
        r == lower_char(c),
{
    if c >= 'A' && c <= 'Z' {
        ((c as u8) + 32) as char
    } else {
        c
    }
}

} // verus!
