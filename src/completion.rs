use vstd::prelude::*;

use crate::commands::{builtin_names, Commands};
use crate::text::{string_of, chars_of, strings_view};

verus! {

/// `s` begins with `p`.
pub open spec fn starts_with(s: Seq<char>, p: Seq<char>) -> bool {
    p.len() <= s.len() && s.subrange(0, p.len() as int) == p
}

/// `a` comes before `b` in dictionary order of code points, comparing from
/// position `i` on.
pub open spec fn lex_lt_from(a: Seq<char>, b: Seq<char>, i: int) -> bool
    decreases a.len() - i,
{
    if i >= a.len() {
        i < b.len()
    } else if i >= b.len() {
        false
    } else if a[i] != b[i] {
        a[i] < b[i]
    } else {
        lex_lt_from(a, b, i + 1)
    }
}

/// `a` comes before `b` in dictionary order of code points.
pub open spec fn lex_lt(a: Seq<char>, b: Seq<char>) -> bool {
    lex_lt_from(a, b, 0)
}

/// Each name comes before the next, so none repeats.
pub open spec fn strictly_sorted(v: Seq<Seq<char>>) -> bool {
    forall|i: int, j: int| 0 <= i < j < v.len() ==> lex_lt(#[trigger] v[i], #[trigger] v[j])
}

proof fn lemma_lex_trans(a: Seq<char>, b: Seq<char>, c: Seq<char>, i: int)
    requires
        0 <= i,
        lex_lt_from(a, b, i),
        lex_lt_from(b, c, i),
    ensures
        lex_lt_from(a, c, i),
    decreases a.len() - i,
{
    if i < a.len() && a[i] == b[i] && b[i] == c[i] {
        lemma_lex_trans(a, b, c, i + 1);
    }
}

proof fn lemma_lex_total(a: Seq<char>, b: Seq<char>, i: int)
    requires
        0 <= i <= a.len(),
        i <= b.len(),
        !lex_lt_from(a, b, i),
        !lex_lt_from(b, a, i),
    ensures
        a.subrange(i, a.len() as int) == b.subrange(i, b.len() as int),
    decreases a.len() - i,
{
    if i < a.len() {
        lemma_lex_total(a, b, i + 1);
        assert(a.subrange(i, a.len() as int) =~= seq![a[i]] + a.subrange(i + 1, a.len() as int));
        assert(b.subrange(i, b.len() as int) =~= seq![b[i]] + b.subrange(i + 1, b.len() as int));
    } else {
        assert(a.subrange(i, a.len() as int) =~= Seq::<char>::empty());
        assert(b.subrange(i, b.len() as int) =~= Seq::<char>::empty());
    }
}

pub open spec fn names_view(v: Seq<Vec<char>>) -> Seq<Seq<char>> {
    v.map_values(|c: Vec<char>| c@)
}

/// Whether `a` comes before `b`.
fn less_than(a: &Vec<char>, b: &Vec<char>) -> (r: bool)
    ensures
        r == lex_lt(a@, b@),
{
    let mut i: usize = 0;
    loop
        invariant
            i <= a@.len(),
            i <= b@.len(),
            lex_lt(a@, b@) == lex_lt_from(a@, b@, i as int),
        decreases a@.len() - i,
    {
        if i >= a.len() {
            return i < b.len();
        }
        if i >= b.len() {
            return false;
        }
        if a[i] != b[i] {
            return a[i] < b[i];
        }
        i = i + 1;
    }
}

/// Whether `s` begins with `p`.
fn has_prefix(s: &Vec<char>, p: &Vec<char>) -> (r: bool)
    ensures
        r == starts_with(s@, p@),
{
    if p.len() > s.len() {
        return false;
    }
    let mut i: usize = 0;
    while i < p.len()
        invariant
            p@.len() <= s@.len(),
            i <= p@.len(),
            s@.subrange(0, i as int) == p@.subrange(0, i as int),
        decreases p@.len() - i,
    {
        if s[i] != p[i] {
            assert(s@.subrange(0, p@.len() as int)[i as int] == s@[i as int]);
            return false;
        }
        assert(s@.subrange(0, i + 1) =~= s@.subrange(0, i as int).push(s@[i as int]));
        assert(p@.subrange(0, i + 1) =~= p@.subrange(0, i as int).push(p@[i as int]));
        i = i + 1;
    }
    assert(p@.subrange(0, p@.len() as int) =~= p@);
    true
}

/// Puts `x` in its place in a sorted list of names, unless it is there.
fn insert_sorted(v: &mut Vec<Vec<char>>, x: Vec<char>)
    requires
        strictly_sorted(names_view(old(v)@)),
    ensures
        strictly_sorted(names_view(final(v)@)),
        forall|y: Seq<char>|
            names_view(final(v)@).contains(y) <==> (names_view(old(v)@).contains(y) || y == x@),
{
    let ghost vv = names_view(v@);
    let mut p: usize = 0;
    while p < v.len() && less_than(&v[p], &x)
        invariant
            p <= v@.len(),
            vv == names_view(v@),
            v@ == old(v)@,
            forall|j: int| 0 <= j < p ==> lex_lt(#[trigger] vv[j], x@),
        decreases v@.len() - p,
    {
        p = p + 1;
    }
    if p < v.len() && !less_than(&x, &v[p]) {
        proof {
            lemma_lex_total(vv[p as int], x@, 0);
            assert(vv[p as int] =~= vv[p as int].subrange(0, vv[p as int].len() as int));
            assert(x@ =~= x@.subrange(0, x@.len() as int));
        }
        assert forall|y: Seq<char>| vv.contains(y) || y == x@ implies vv.contains(y) by {
            if y == x@ {
                assert(vv[p as int] == y);
            }
        }
        return;
    }
    let ghost xv = x@;
    v.insert(p, x);
    let ghost nv = names_view(v@);
    assert(nv =~= vv.insert(p as int, xv));
    assert forall|i: int, j: int| 0 <= i < j < nv.len() implies lex_lt(
        #[trigger] nv[i],
        #[trigger] nv[j],
    ) by {
        if j < p {
        } else if j == p {
        } else if i < p {
            if j > p + 1 {
                lemma_lex_trans(xv, vv[p as int], vv[j - 1], 0);
            }
            lemma_lex_trans(nv[i], xv, nv[j], 0);
        } else if i == p {
            if j > p + 1 {
                lemma_lex_trans(xv, vv[p as int], vv[j - 1], 0);
            }
        } else {
        }
    }
    assert forall|y: Seq<char>| nv.contains(y) <==> (vv.contains(y) || y == xv) by {
        if nv.contains(y) {
            let k = choose|k: int| 0 <= k < nv.len() && nv[k] == y;
            if k < p {
                assert(vv[k] == y);
            } else if k > p {
                assert(vv[k - 1] == y);
            }
        }
        if vv.contains(y) {
            let k = choose|k: int| 0 <= k < vv.len() && vv[k] == y;
            if k < p {
                assert(nv[k] == y);
            } else {
                assert(nv[k + 1] == y);
            }
        }
        if y == xv {
            assert(nv[p as int] == y);
        }
    }
}

/// Adds to `found` the names of `names` that begin with `p`.
fn add_matches(found: &mut Vec<Vec<char>>, names: &Vec<String>, p: &Vec<char>)
    requires
        strictly_sorted(names_view(old(found)@)),
    ensures
        strictly_sorted(names_view(final(found)@)),
        forall|x: Seq<char>|
            #[trigger] names_view(final(found)@).contains(x) <==> (names_view(old(found)@).contains(x)
                || (starts_with(x, p@) && strings_view(names@).contains(x))),
{
    let ghost nv = strings_view(names@);
    let mut i: usize = 0;
    while i < names.len()
        invariant
            i <= names@.len(),
            nv == strings_view(names@),
            strictly_sorted(names_view(found@)),
            forall|x: Seq<char>|
                #[trigger] names_view(found@).contains(x) <==> (names_view(old(found)@).contains(x)
                    || (starts_with(x, p@) && nv.subrange(0, i as int).contains(x))),
        decreases names@.len() - i,
    {
        let name = chars_of(names[i].as_str());
        let ghost before = nv.subrange(0, i as int);
        let ghost prev = names_view(found@);
        assert(nv.subrange(0, i + 1) =~= before.push(name@));
        if has_prefix(&name, p) {
            insert_sorted(found, name);
        }
        assert forall|x: Seq<char>|
            #[trigger] names_view(found@).contains(x) <==> (names_view(old(found)@).contains(x)
                || (starts_with(x, p@) && nv.subrange(0, i + 1).contains(x))) by {
            if before.push(nv[i as int]).contains(x) && x != nv[i as int] {
                let k = choose|k: int| 0 <= k < before.len() + 1 && before.push(nv[i as int])[k] == x;
                assert(before[k] == x);
            }
            if before.contains(x) {
                let k = choose|k: int| 0 <= k < before.len() && before[k] == x;
                assert(before.push(nv[i as int])[k] == x);
            }
            if x == nv[i as int] {
                assert(before.push(nv[i as int])[i as int] == x);
            }
        }
        i = i + 1;
    }
    assert(nv.subrange(0, i as int) =~= nv);
}

/// Offers the names that complete a prefix: the builtin verbs and the
/// executables on `PATH`.
#[derive(Debug)]
pub struct AutoCompleter;

impl AutoCompleter {
    /// The names among the builtins and `executables` that begin with
    /// `prefix`, each once, in dictionary order.
    pub fn complete(&self, prefix: &str, executables: &Vec<String>) -> (r: Vec<String>)
        ensures
            strictly_sorted(strings_view(r@)),
            forall|x: Seq<char>|
                #[trigger] strings_view(r@).contains(x) <==> (starts_with(x, prefix@) && (
                builtin_names().contains(x) || strings_view(executables@).contains(x))),
    {
        let p = chars_of(prefix);
        let builtins = Commands::all_commands();
        let mut found: Vec<Vec<char>> = Vec::new();
        assert(names_view(found@) =~= Seq::<Seq<char>>::empty());
        add_matches(&mut found, &builtins, &p);
        add_matches(&mut found, executables, &p);
        let ghost fv = names_view(found@);
        let mut r: Vec<String> = Vec::new();
        let mut k: usize = 0;
        while k < found.len()
            invariant
                k <= found@.len(),
                fv == names_view(found@),
                strings_view(r@) == fv.subrange(0, k as int),
            decreases found@.len() - k,
        {
            let s = string_of(&found[k], 0, found[k].len());
            assert(s@ =~= fv[k as int]);
            let ghost before = strings_view(r@);
            r.push(s);
            assert(strings_view(r@) =~= before.push(fv[k as int]));
            assert(fv.subrange(0, k + 1) =~= fv.subrange(0, k as int).push(fv[k as int]));
            k = k + 1;
        }
        assert(fv.subrange(0, k as int) =~= fv);
        r
    }
}


/// How far `a` and `b` agree, counting from `i`.
pub open spec fn common_len(a: Seq<char>, b: Seq<char>, i: int) -> int
    decreases a.len() - i,
{
    if 0 <= i < a.len() && i < b.len() && a[i] == b[i] {
        common_len(a, b, i + 1)
    } else {
        i
    }
}

/// The longest prefix that every name of `ss` begins with; empty for no names.
pub open spec fn common_prefix(ss: Seq<Seq<char>>) -> Seq<char>
    decreases ss.len(),
{
    if ss.len() == 0 {
        Seq::empty()
    } else if ss.len() == 1 {
        ss[0]
    } else {
        let a = common_prefix(ss.drop_last());
        a.subrange(0, common_len(a, ss.last(), 0))
    }
}

proof fn lemma_common_len_bounds(a: Seq<char>, b: Seq<char>, i: int)
    requires
        0 <= i <= a.len(),
        i <= b.len(),
    ensures
        i <= common_len(a, b, i) <= a.len(),
        common_len(a, b, i) <= b.len(),
    decreases a.len() - i,
{
    if i < a.len() && i < b.len() && a[i] == b[i] {
        lemma_common_len_bounds(a, b, i + 1);
    }
}

proof fn lemma_common_len_covers(a: Seq<char>, b: Seq<char>, p: Seq<char>, i: int)
    requires
        0 <= i <= p.len(),
        starts_with(a, p),
        starts_with(b, p),
    ensures
        common_len(a, b, i) >= p.len(),
    decreases a.len() - i,
{
    if i < p.len() {
        assert(a[i] == a.subrange(0, p.len() as int)[i]);
        assert(b[i] == b.subrange(0, p.len() as int)[i]);
        lemma_common_len_covers(a, b, p, i + 1);
    } else {
        lemma_common_len_bounds(a, b, i);
    }
}

/// When every name begins with `p`, so does their longest common prefix.
pub proof fn lemma_common_prefix_keeps(ss: Seq<Seq<char>>, p: Seq<char>)
    requires
        ss.len() > 0,
        forall|i: int| 0 <= i < ss.len() ==> starts_with(#[trigger] ss[i], p),
    ensures
        starts_with(common_prefix(ss), p),
    decreases ss.len(),
{
    if ss.len() > 1 {
        let rest = ss.drop_last();
        assert forall|i: int| 0 <= i < rest.len() implies starts_with(#[trigger] rest[i], p) by {
            assert(rest[i] == ss[i]);
        }
        lemma_common_prefix_keeps(rest, p);
        let a = common_prefix(rest);
        assert(starts_with(ss[ss.len() - 1], p));
        lemma_common_len_bounds(a, ss.last(), 0);
        lemma_common_len_covers(a, ss.last(), p, 0);
        let c = a.subrange(0, common_len(a, ss.last(), 0));
        assert(c.subrange(0, p.len() as int) =~= a.subrange(0, p.len() as int));
    }
}

/// Tab completion never loses what was typed: when the completer offers any
/// name for a prefix, the longest prefix those names share begins with it.
pub proof fn lemma_completion_extends_prefix(cands: Seq<Seq<char>>, prefix: Seq<char>)
    requires
        cands.len() > 0,
        forall|x: Seq<char>| #[trigger] cands.contains(x) ==> starts_with(x, prefix),
    ensures
        starts_with(common_prefix(cands), prefix),
{
    assert forall|i: int| 0 <= i < cands.len() implies starts_with(#[trigger] cands[i], prefix) by {
        assert(cands.contains(cands[i]));
    }
    lemma_common_prefix_keeps(cands, prefix);
}

/// The longest prefix that all of `strings` share.
pub fn common_prefix_ascii(strings: &Vec<String>) -> (r: String)
    ensures
        r@ == common_prefix(strings_view(strings@)),
{
    let ghost sv = strings_view(strings@);
    if strings.len() == 0 {
        return String::new();
    }
    let mut cur = chars_of(strings[0].as_str());
    let mut i: usize = 1;
    assert(sv.subrange(0, 1).len() == 1);
    while i < strings.len()
        invariant
            1 <= i <= strings@.len(),
            sv == strings_view(strings@),
            cur@ == common_prefix(sv.subrange(0, i as int)),
        decreases strings@.len() - i,
    {
        let s = chars_of(strings[i].as_str());
        let mut k: usize = 0;
        while k < cur.len() && k < s.len() && cur[k] == s[k]
            invariant
                k <= cur@.len(),
                k <= s@.len(),
                common_len(cur@, s@, k as int) == common_len(cur@, s@, 0),
            decreases cur@.len() - k,
        {
            k = k + 1;
        }
        assert(sv.subrange(0, i + 1).drop_last() =~= sv.subrange(0, i as int));
        assert(sv.subrange(0, i + 1).last() == s@);
        cur.truncate(k);
        i = i + 1;
    }
    assert(sv.subrange(0, i as int) =~= sv);
    string_of(&cur, 0, cur.len())
}

} // verus!
