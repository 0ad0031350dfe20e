//! Verified path-string utilities: file name, extension, parent and
//! component splitting over `/`-separated paths, used by the scanner, the
//! pipeline and the export path validator.

use vstd::prelude::*;

use crate::ext::chars_to_string;
use crate::text::{chars_of, lower_char};

verus! {

/// The index of the last occurrence of `c` in `p`, or -1.
pub open spec fn last_index_of(p: Seq<char>, c: char) -> int
    decreases p.len(),
{
    if p.len() == 0 {
        -1
    } else if p.last() == c {
        p.len() - 1
    } else {
        last_index_of(p.drop_last(), c)
    }
}

pub proof fn lemma_last_index_of_range(p: Seq<char>, c: char)
    ensures
        -1 <= last_index_of(p, c) < p.len(),
    decreases p.len(),
{
    if p.len() > 0 && p.last() != c {
        lemma_last_index_of_range(p.drop_last(), c);
    }
}

/// Finds the last occurrence of `c` in `v`.
pub fn find_last(v: &Vec<char>, c: char) -> (r: Option<usize>)
    ensures
        r matches Some(i) ==> i == last_index_of(v@, c) && i < v@.len(),
        r is None ==> last_index_of(v@, c) == -1,
{
    let mut j: usize = v.len();
    proof {
        assert(v@.take(v@.len() as int) =~= v@);
    }
    while j > 0
        invariant
            j <= v.len(),
            last_index_of(v@, c) == last_index_of(v@.take(j as int), c),
        decreases j,
    {
        proof {
            assert(v@.take(j as int).last() == v@[j - 1]);
            assert(v@.take(j as int).drop_last() =~= v@.take(j - 1));
        }
        if v[j - 1] == c {
            return Some(j - 1);
        }
        j = j - 1;
    }
    proof {
        assert(v@.take(0) =~= Seq::<char>::empty());
    }
    None
}

/// The final component of a path: everything after the last `/`.
pub open spec fn file_name_of(p: Seq<char>) -> Seq<char> {
    p.skip(last_index_of(p, '/') + 1)
}

/// The parent of a path: everything before the last `/`, the root `/` kept.
pub open spec fn parent_of(p: Seq<char>) -> Seq<char> {
    let i = last_index_of(p, '/');
    if i == -1 {
        Seq::empty()
    } else if i == 0 {
        seq!['/']
    } else {
        p.take(i)
    }
}

/// The extension of a path's final component: what follows its last `.`,
/// none when the component has no `.` past its first character.
pub open spec fn extension_of(p: Seq<char>) -> Option<Seq<char>> {
    let name = file_name_of(p);
    let d = last_index_of(name, '.');
    if d <= 0 {
        Option::None
    } else {
        Option::Some(name.skip(d + 1))
    }
}

/// ASCII case folding of a whole sequence.
pub open spec fn lower_seq(s: Seq<char>) -> Seq<char> {
    Seq::new(s.len(), |i: int| lower_char(s[i]))
}

/// The characters of the final component of a path.
pub fn file_name_chars(p: &Vec<char>) -> (r: Vec<char>)
    ensures
        r@ == file_name_of(p@),
{
    proof {
        lemma_last_index_of_range(p@, '/');
    }
    let n = p.len();
    let cut: usize = match find_last(p, '/') {
        Some(i) => i + 1,
        None => 0,
    };
    let mut r: Vec<char> = Vec::new();
    let mut k: usize = cut;
    while k < p.len()
        invariant
            cut <= k <= p.len(),
            r@ == p@.subrange(cut as int, k as int),
        decreases p.len() - k,
    {
        r.push(p[k]);
        proof {
            assert(p@.subrange(cut as int, k + 1) =~= p@.subrange(cut as int, k as int).push(
                p@[k as int],
            ));
        }
        k = k + 1;
    }
    proof {
        assert(p@.subrange(cut as int, p@.len() as int) =~= p@.skip(cut as int));
    }
    r
}

/// The final component of a path string.
pub fn file_name_str(p: &str) -> (r: String)
    ensures
        r@ == file_name_of(p@),
{
    let cs = chars_of(p);
    let name = file_name_chars(&cs);
    chars_to_string(&name)
}

/// The parent of a path string.
pub fn parent_str(p: &str) -> (r: String)
    ensures
        r@ == parent_of(p@),
{
    let cs = chars_of(p);
    proof {
        lemma_last_index_of_range(cs@, '/');
    }
    let mut out: Vec<char> = Vec::new();
    match find_last(&cs, '/') {
        None => {
            proof {
                assert(out@ =~= parent_of(p@));
            }
        },
        Some(0) => {
            out.push('/');
            proof {
                assert(out@ =~= parent_of(p@));
            }
        },
        Some(i) => {
            let mut k: usize = 0;
            while k < i
                invariant
                    k <= i,
                    i < cs@.len(),
                    out@ == cs@.take(k as int),
                    cs@ == p@,
                decreases i - k,
            {
                out.push(cs[k]);
                proof {
                    assert(cs@.take(k + 1) =~= cs@.take(k as int).push(cs@[k as int]));
                }
                k = k + 1;
            }
        },
    }
    chars_to_string(&out)
}

/// The lower-cased extension of a path string.
pub fn extension_lower(p: &str) -> (r: Option<String>)
    ensures
        r is Some <==> extension_of(p@) is Some,
        r matches Some(e) ==> e@ == lower_seq(extension_of(p@).unwrap()),
{
    let cs = chars_of(p);
    let name = file_name_chars(&cs);
    proof {
        lemma_last_index_of_range(name@, '.');
    }
    let nl = name.len();
    let d: usize = match find_last(&name, '.') {
        None => {
            return None;
        },
        Some(0) => {
            return None;
        },
        Some(i) => i,
    };
    let mut out: Vec<char> = Vec::new();
    let ghost ext = extension_of(p@).unwrap();
    proof {
        assert(ext =~= name@.skip(d + 1));
    }
    let mut k: usize = d + 1;
    while k < name.len()
        invariant
            d + 1 <= k <= name@.len(),
            ext == name@.skip(d + 1),
            out@ == lower_seq(ext).take(k - d - 1),
        decreases name@.len() - k,
    {
        out.push(crate::text::to_lower_char(name[k]));
        proof {
            assert(lower_seq(ext)[k - d - 1] == lower_char(name@[k as int]));
            assert(lower_seq(ext).take(k - d) =~= lower_seq(ext).take(k - d - 1).push(
                lower_seq(ext)[k - d - 1],
            ));
        }
        k = k + 1;
    }
    proof {
        assert(lower_seq(ext).take(lower_seq(ext).len() as int) =~= lower_seq(ext));
    }
    Some(chars_to_string(&out))
}

/// The `/`-separated components of a path, empty segments dropped: the state
/// after reading `s` with partial component `cur` and completed `acc`.
pub open spec fn comp_state(s: Seq<char>, cur: Seq<char>, acc: Seq<Seq<char>>) -> (Seq<char>, Seq<
    Seq<char>,
>)
    decreases s.len(),
{
    if s.len() == 0 {
        (cur, acc)
    } else if s[0] == '/' {
        if cur.len() > 0 {
            comp_state(s.drop_first(), Seq::empty(), acc.push(cur))
        } else {
            comp_state(s.drop_first(), Seq::empty(), acc)
        }
    } else {
        comp_state(s.drop_first(), cur.push(s[0]), acc)
    }
}

/// The non-empty `/`-separated components of a path, in order.
pub open spec fn components_of(s: Seq<char>) -> Seq<Seq<char>> {
    let st = comp_state(s, Seq::empty(), Seq::empty());
    if st.0.len() > 0 {
        st.1.push(st.0)
    } else {
        st.1
    }
}

/// Splits a path into its non-empty components.
pub fn split_components(s: &Vec<char>) -> (cs: Vec<Vec<char>>)
    ensures
        cs.deep_view() == components_of(s@),
{
    let mut acc: Vec<Vec<char>> = Vec::new();
    let mut cur: Vec<char> = Vec::new();
    let mut i: usize = 0;
    proof {
        assert(acc.deep_view() =~~= Seq::<Seq<char>>::empty());
        assert(cur@ =~= Seq::<char>::empty());
        assert(s@.skip(0) =~= s@);
    }
    while i < s.len()
        invariant
            i <= s.len(),
            comp_state(s@, Seq::empty(), Seq::empty()) == comp_state(
                s@.skip(i as int),
                cur@,
                acc.deep_view(),
            ),
        decreases s.len() - i,
    {
        let ghost prev_acc = acc.deep_view();
        let ghost prev_cur = cur@;
        let ghost rest = s@.skip(i as int);
        proof {
            assert(rest[0] == s@[i as int]);
            assert(rest.drop_first() =~= s@.skip(i + 1));
        }
        let c = s[i];
        if c == '/' {
            if cur.len() > 0 {
                acc.push(cur);
                cur = Vec::new();
                proof {
                    assert(acc.deep_view() =~~= prev_acc.push(prev_cur));
                    assert(cur@ =~= Seq::<char>::empty());
                }
            } else {
                proof {
                    assert(prev_cur =~= Seq::<char>::empty());
                }
            }
        } else {
            cur.push(c);
        }
        proof {
            assert(comp_state(rest, prev_cur, prev_acc) == comp_state(
                s@.skip(i + 1),
                cur@,
                acc.deep_view(),
            ));
        }
        i = i + 1;
    }
    proof {
        assert(s@.skip(s@.len() as int) =~= Seq::<char>::empty());
    }
    if cur.len() > 0 {
        let ghost prev_acc = acc.deep_view();
        let ghost prev_cur = cur@;
        acc.push(cur);
        proof {
            assert(acc.deep_view() =~~= prev_acc.push(prev_cur));
        }
    }
    acc
}

/// Whether two character vectors hold the same characters.
pub fn chars_eq(a: &Vec<char>, b: &Vec<char>) -> (r: bool)
    ensures
        r == (a@ == b@),
{
    if a.len() != b.len() {
        return false;
    }
    let mut i: usize = 0;
    while i < a.len()
        invariant
            i <= a.len(),
            a@.len() == b@.len(),
            forall|k: int| 0 <= k < i ==> a@[k] == b@[k],
        decreases a.len() - i,
    {
        if a[i] != b[i] {
            return false;
        }
        i = i + 1;
    }
    proof {
        assert(a@ =~= b@);
    }
    true
}

/// Whether a character vector holds exactly the characters of a literal.
pub fn chars_eq_str(a: &Vec<char>, s: &str) -> (r: bool)
    ensures
        r == (a@ == s@),
{
    let b = chars_of(s);
    chars_eq(a, &b)
}

} // verus!
