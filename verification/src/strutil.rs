//! Character-level string helpers the query grammar and the search
//! predicates are built from.

use vstd::prelude::*;
use vstd::string::{StrSliceExecFns, StringExecFns};

verus! {

/// Character-for-character string equality.
pub fn str_eq(a: &str, b: &str) -> (r: bool)
    ensures
        r == (a@ == b@),
{
    let n = a.unicode_len();
    if n != b.unicode_len() {
        proof {
            if a@ == b@ {
                assert(a@.len() == b@.len());
            }
        }
        return false;
    }
    let mut i: usize = 0;
    while i < n
        invariant
            i <= n,
            n == a@.len(),
            n == b@.len(),
            forall|j: int| 0 <= j < i ==> a@[j] == b@[j],
        decreases n - i,
    {
        if a.get_char(i) != b.get_char(i) {
            proof {
                if a@ == b@ {
                    assert(a@[i as int] == b@[i as int]);
                }
            }
            return false;
        }
        i += 1;
    }
    proof {
        assert(a@ =~= b@);
    }
    true
}

/// Whether one of `names` reads as `s`.
pub fn vec_contains_str(names: &Vec<String>, s: &str) -> (r: bool)
    ensures
        r == names@.map_values(|x: String| x@).contains(s@),
{
    let ghost nvs = names@.map_values(|x: String| x@);
    let mut i: usize = 0;
    while i < names.len()
        invariant
            i <= names.len(),
            nvs == names@.map_values(|x: String| x@),
            nvs.len() == names@.len(),
            forall|j: int| 0 <= j < i ==> nvs[j] != s@,
        decreases names.len() - i,
    {
        if str_eq(names[i].as_str(), s) {
            proof {
                assert(nvs[i as int] == s@);
            }
            return true;
        }
        i += 1;
    }
    proof {
        if nvs.contains(s@) {
            let j = choose|j: int| 0 <= j < nvs.len() && nvs[j] == s@;
            assert(nvs[j] != s@);
        }
    }
    false
}

/// A contains-pattern: the text wrapped in wildcard markers.
pub open spec fn spec_like(s: Seq<char>) -> Seq<char> {
    "%"@ + s + "%"@
}

/// Wrap a raw term in wildcard markers, making it a contains-pattern.
pub fn wrap_like(seg: &str) -> (r: String)
    ensures
        r@ == spec_like(seg@),
{
    let mut out: String = "%".to_owned();
    out.append(seg);
    out.append("%");
    out
}

/// ASCII-case-insensitive character equality.
pub open spec fn spec_char_eq_ci(a: char, b: char) -> bool {
    ||| a == b
    ||| ('A' <= a <= 'Z' && a as u32 + 32 == b as u32)
    ||| ('A' <= b <= 'Z' && b as u32 + 32 == a as u32)
}

fn char_eq_ci(a: char, b: char) -> (r: bool)
    ensures
        r == spec_char_eq_ci(a, b),
{
    a == b || ('A' <= a && a <= 'Z' && a as u32 + 32 == b as u32) || ('A' <= b && b <= 'Z' && b
        as u32 + 32 == a as u32)
}

/// Whether a contains-pattern matches a text: `%` stands for any run of
/// characters, every other pattern character must match the text
/// ASCII-case-insensitively.
pub open spec fn spec_ilike(p: Seq<char>, t: Seq<char>) -> bool
    decreases p.len(), t.len(),
{
    if p.len() == 0 {
        t.len() == 0
    } else if p[0] == '%' {
        spec_ilike(p.skip(1), t) || (t.len() > 0 && spec_ilike(p, t.skip(1)))
    } else {
        t.len() > 0 && spec_char_eq_ci(p[0], t[0]) && spec_ilike(p.skip(1), t.skip(1))
    }
}

fn ilike_at(p: &str, t: &str, i: usize, j: usize) -> (r: bool)
    requires
        i <= p@.len(),
        j <= t@.len(),
    ensures
        r == spec_ilike(p@.skip(i as int), t@.skip(j as int)),
    decreases p@.len() - i, t@.len() - j,
{
    let np = p.unicode_len();
    let nt = t.unicode_len();
    proof {
        assert(p@.skip(i as int).len() == np - i);
        assert(t@.skip(j as int).len() == nt - j);
        if i < np {
            assert(p@.skip(i as int)[0] == p@[i as int]);
            assert(p@.skip(i as int).skip(1) =~= p@.skip(i + 1));
        }
        if j < nt {
            assert(t@.skip(j as int)[0] == t@[j as int]);
            assert(t@.skip(j as int).skip(1) =~= t@.skip(j + 1));
        }
    }
    if i == np {
        j == nt
    } else if p.get_char(i) == '%' {
        if ilike_at(p, t, i + 1, j) {
            true
        } else if j < nt {
            ilike_at(p, t, i, j + 1)
        } else {
            false
        }
    } else {
        if j < nt && char_eq_ci(p.get_char(i), t.get_char(j)) {
            ilike_at(p, t, i + 1, j + 1)
        } else {
            false
        }
    }
}

/// Whether a contains-pattern matches a text.
pub fn ilike(p: &str, t: &str) -> (r: bool)
    ensures
        r == spec_ilike(p@, t@),
{
    let r = ilike_at(p, t, 0, 0);
    proof {
        assert(p@.skip(0) =~= p@);
        assert(t@.skip(0) =~= t@);
    }
    r
}

/// Whether every pattern of `segs` matches the text.
pub fn ilike_all(segs: &Vec<String>, t: &str) -> (r: bool)
    ensures
        r == (forall|k: int|
            0 <= k < segs@.len() ==> spec_ilike((#[trigger] segs@[k])@, t@)),
{
    let mut k: usize = 0;
    while k < segs.len()
        invariant
            k <= segs.len(),
            forall|j: int| 0 <= j < k ==> spec_ilike((#[trigger] segs@[j])@, t@),
        decreases segs.len() - k,
    {
        if !ilike(segs[k].as_str(), t) {
            return false;
        }
        k += 1;
    }
    true
}

/// How a text splits at a separator: every separator ends a token, and
/// both the empty text and a trailing separator yield an empty token.
pub open spec fn spec_split(s: Seq<char>, c: char) -> Seq<Seq<char>>
    decreases s.len(),
{
    if s.len() == 0 {
        seq![Seq::empty()]
    } else if s.last() == c {
        spec_split(s.drop_last(), c).push(Seq::empty())
    } else {
        let r = spec_split(s.drop_last(), c);
        r.update(r.len() - 1, r.last().push(s.last()))
    }
}

/// A split yields at least one token.
pub proof fn lemma_split_nonempty(s: Seq<char>, c: char)
    ensures
        spec_split(s, c).len() >= 1,
    decreases s.len(),
{
    if s.len() > 0 {
        lemma_split_nonempty(s.drop_last(), c);
    }
}

/// Split a text on every single occurrence of the space character.
pub fn split_spaces(s: &str) -> (r: Vec<String>)
    ensures
        r@.map_values(|x: String| x@) == spec_split(s@, ' '),
{
    let n = s.unicode_len();
    let mut out: Vec<String> = Vec::new();
    let mut start: usize = 0;
    let mut k: usize = 0;
    while k < n
        invariant
            start <= k <= n,
            n == s@.len(),
            out@.map_values(|x: String| x@) == spec_split(s@.take(k as int), ' ').drop_last(),
            s@.subrange(start as int, k as int) == spec_split(s@.take(k as int), ' ').last(),
        decreases n - k,
    {
        proof {
            lemma_split_nonempty(s@.take(k as int), ' ');
            lemma_split_nonempty(s@.take(k + 1), ' ');
            assert(s@.take(k + 1).drop_last() =~= s@.take(k as int));
            assert(s@.take(k + 1).last() == s@[k as int]);
        }
        let c = s.get_char(k);
        if c == ' ' {
            let tok = s.substring_char(start, k).to_owned();
            out.push(tok);
            start = k + 1;
            proof {
                let pre = spec_split(s@.take(k as int), ' ');
                assert(out@.map_values(|x: String| x@) =~= pre.drop_last().push(pre.last()));
                assert(pre.drop_last().push(pre.last()) =~= pre);
                assert(s@.subrange(start as int, k + 1) =~= Seq::<char>::empty());
            }
        } else {
            proof {
                let pre = spec_split(s@.take(k as int), ' ');
                let post = spec_split(s@.take(k + 1), ' ');
                assert(post =~= pre.update(pre.len() - 1, pre.last().push(s@[k as int])));
                assert(post.drop_last() =~= pre.drop_last());
                assert(s@.subrange(start as int, k + 1) =~= s@.subrange(
                    start as int,
                    k as int,
                ).push(s@[k as int]));
            }
        }
        k += 1;
    }
    let tok = s.substring_char(start, n).to_owned();
    out.push(tok);
    proof {
        assert(s@.take(n as int) =~= s@);
        lemma_split_nonempty(s@, ' ');
        let full = spec_split(s@, ' ');
        assert(out@.map_values(|x: String| x@) =~= full.drop_last().push(full.last()));
        assert(full.drop_last().push(full.last()) =~= full);
    }
    out
}

} // verus!
