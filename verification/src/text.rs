use vstd::prelude::*;
use vstd::string::StringExecFns;

verus! {

broadcast use vstd::string::group_string_axioms;

/// Lexicographic order on character sequences, comparing code points.
/// On strings it is the order of `String`'s `Ord` (UTF-8 keeps code-point order).
pub open spec fn seq_lt(a: Seq<char>, b: Seq<char>) -> bool
    decreases a.len(),
{
    if a.len() == 0 {
        b.len() > 0
    } else if b.len() == 0 {
        false
    } else if a[0] != b[0] {
        (a[0] as int) < (b[0] as int)
    } else {
        seq_lt(a.drop_first(), b.drop_first())
    }
}

/// No sequence comes before itself.
pub proof fn lemma_lt_irreflexive(a: Seq<char>)
    ensures
        !seq_lt(a, a),
    decreases a.len(),
{
    if a.len() > 0 {
        lemma_lt_irreflexive(a.drop_first());
    }
}

/// Of two different sequences exactly one comes first.
pub proof fn lemma_lt_total(a: Seq<char>, b: Seq<char>)
    ensures
        a != b ==> (seq_lt(a, b) || seq_lt(b, a)),
        !(seq_lt(a, b) && seq_lt(b, a)),
    decreases a.len(),
{
    if a.len() > 0 && b.len() > 0 && a[0] == b[0] {
        lemma_lt_total(a.drop_first(), b.drop_first());
        if a.drop_first() =~= b.drop_first() {
            assert forall|i: int| 0 <= i < a.len() implies a[i] == b[i] by {
                if i > 0 {
                    assert(a[i] == a.drop_first()[i - 1]);
                    assert(b[i] == b.drop_first()[i - 1]);
                }
            }
            assert(a =~= b);
        }
    } else if a.len() == 0 && b.len() == 0 {
        assert(a =~= b);
    }
}

/// The order is transitive.
pub proof fn lemma_lt_transitive(a: Seq<char>, b: Seq<char>, c: Seq<char>)
    requires
        seq_lt(a, b),
        seq_lt(b, c),
    ensures
        seq_lt(a, c),
    decreases a.len(),
{
    if a.len() > 0 && b.len() > 0 && c.len() > 0 && a[0] == b[0] && b[0] == c[0] {
        lemma_lt_transitive(a.drop_first(), b.drop_first(), c.drop_first());
    }
}

/// The characters of `s`, in order.
pub fn chars_of(s: &str) -> (res: Vec<char>)
    ensures
        res@ == s@,
{
    let mut res: Vec<char> = Vec::new();
    for c in it: s.chars()
        invariant
            it.seq() == s@,
            res@ == it.seq().take(it.index()),
    {
        res.push(c);
    }
    res
}

/// Whether `a` comes strictly before `b` in lexicographic order.
pub fn str_lt(a: &str, b: &str) -> (res: bool)
    ensures
        res == seq_lt(a@, b@),
{
    let va = chars_of(a);
    let vb = chars_of(b);
    let mut i: usize = 0;
    assert(a@.skip(0) =~= a@ && b@.skip(0) =~= b@);
    while i < va.len() && i < vb.len()
        invariant
            va@ == a@,
            vb@ == b@,
            i <= va.len(),
            i <= vb.len(),
            seq_lt(a@, b@) == seq_lt(a@.skip(i as int), b@.skip(i as int)),
        decreases va.len() - i,
    {
        if va[i] != vb[i] {
            assert(a@.skip(i as int)[0] == va[i as int]);
            assert(b@.skip(i as int)[0] == vb[i as int]);
            return va[i] < vb[i];
        }
        assert(a@.skip(i as int).drop_first() =~= a@.skip(i + 1));
        assert(b@.skip(i as int).drop_first() =~= b@.skip(i + 1));
        i = i + 1;
    }
    va.len() == i && i < vb.len()
}

/// Whether `a` and `b` hold the same characters.
pub fn str_eq(a: &str, b: &str) -> (res: bool)
    ensures
        res == (a@ == b@),
{
    let va = chars_of(a);
    let vb = chars_of(b);
    if va.len() != vb.len() {
        return false;
    }
    let mut i: usize = 0;
    while i < va.len()
        invariant
            va@ == a@,
            vb@ == b@,
            va.len() == vb.len(),
            i <= va.len(),
            forall|j: int| 0 <= j < i ==> va@[j] == vb@[j],
        decreases va.len() - i,
    {
        if va[i] != vb[i] {
            return false;
        }
        i = i + 1;
    }
    assert(va@ =~= vb@);
    true
}

/// Each sequence comes strictly before the next: sorted, with no repeats.
pub open spec fn strictly_sorted(s: Seq<Seq<char>>) -> bool {
    forall|i: int, j: int| 0 <= i < j < s.len() ==> seq_lt(#[trigger] s[i], #[trigger] s[j])
}

/// The character sequences of a list of strings.
pub open spec fn views(v: Seq<String>) -> Seq<Seq<char>> {
    v.map_values(|s: String| s@)
}

/// Where `key` stands, or would stand, in the strictly sorted `keys`: the
/// first position whose key does not come before `key`, and whether the key
/// there is `key` itself.
pub fn sorted_position(keys: &Vec<String>, key: &str) -> (res: (usize, bool))
    requires
        strictly_sorted(views(keys@)),
    ensures
        res.0 <= keys.len(),
        forall|j: int| 0 <= j < res.0 ==> seq_lt(#[trigger] views(keys@)[j], key@),
        forall|j: int| res.0 < j < keys.len() ==> seq_lt(key@, #[trigger] views(keys@)[j]),
        res.1 <==> (res.0 < keys.len() && views(keys@)[res.0 as int] == key@),
        !res.1 ==> (res.0 == keys.len() || seq_lt(key@, views(keys@)[res.0 as int])),
        res.1 <==> views(keys@).contains(key@),
{
    let ghost ks = views(keys@);
    let mut i: usize = 0;
    while i < keys.len() && str_lt(keys[i].as_str(), key)
        invariant
            ks == views(keys@),
            strictly_sorted(ks),
            i <= keys.len(),
            forall|j: int| 0 <= j < i ==> seq_lt(#[trigger] ks[j], key@),
        decreases keys.len() - i,
    {
        i = i + 1;
    }
    let found = i < keys.len() && str_eq(keys[i].as_str(), key);
    proof {
        if i < keys.len() {
            assert(!seq_lt(ks[i as int], key@));
            lemma_lt_total(ks[i as int], key@);
            assert forall|j: int| i < j < keys.len() implies seq_lt(key@, #[trigger] ks[j]) by {
                assert(seq_lt(ks[i as int], ks[j]));
                if !found {
                    lemma_lt_transitive(key@, ks[i as int], ks[j]);
                } else {
                    assert(ks[i as int] == key@);
                }
            }
        }
        if found {
            assert(ks[i as int] == key@);
            assert(ks.contains(key@));
        } else {
            assert forall|j: int| 0 <= j < ks.len() implies ks[j] != key@ by {
                if j < i {
                    lemma_lt_irreflexive(key@);
                } else if j > i {
                    lemma_lt_irreflexive(key@);
                }
            }
        }
    }
    (i, found)
}

/// Adds `key` to the strictly sorted `keys` unless it is there already.
pub fn insert_sorted(keys: &mut Vec<String>, key: String)
    requires
        strictly_sorted(views(old(keys)@)),
    ensures
        strictly_sorted(views(final(keys)@)),
        forall|k: Seq<char>|
            #[trigger] views(final(keys)@).contains(k) <==> (views(old(keys)@).contains(k) || k
                == key@),
{
    let ghost ks = views(keys@);
    let (p, found) = sorted_position(keys, key.as_str());
    if !found {
        let ghost kv = key@;
        keys.insert(p, key);
        proof {
            let ks2 = views(keys@);
            assert(ks2 =~= ks.insert(p as int, kv));
            assert forall|i: int, j: int| 0 <= i < j < ks2.len() implies seq_lt(
                #[trigger] ks2[i],
                #[trigger] ks2[j],
            ) by {
                if j < p {
                    assert(seq_lt(ks[i], ks[j]));
                } else if j == p {
                    assert(seq_lt(ks[i], kv));
                } else if i < p {
                    assert(seq_lt(ks[i], ks[j - 1]));
                } else if i == p {
                    assert(seq_lt(kv, ks[j - 1]));
                } else {
                    assert(seq_lt(ks[i - 1], ks[j - 1]));
                }
            }
            assert forall|k: Seq<char>| #[trigger] ks2.contains(k) <==> (ks.contains(k) || k == kv) by {
                if ks2.contains(k) {
                    let j = choose|j: int| 0 <= j < ks2.len() && ks2[j] == k;
                    if j < p {
                        assert(ks[j] == k);
                    } else if j > p {
                        assert(ks[j - 1] == k);
                    }
                }
                if ks.contains(k) {
                    let j = choose|j: int| 0 <= j < ks.len() && ks[j] == k;
                    if j < p {
                        assert(ks2[j] == k);
                    } else {
                        assert(ks2[j + 1] == k);
                    }
                }
                if k == kv {
                    assert(ks2[p as int] == k);
                }
            }
        }
    }
}

/// Whether `items` holds a string with the characters of `key`.
pub fn contains_str(items: &Vec<String>, key: &str) -> (res: bool)
    ensures
        res == views(items@).contains(key@),
{
    let mut i: usize = 0;
    while i < items.len()
        invariant
            i <= items.len(),
            forall|j: int| 0 <= j < i ==> views(items@)[j] != key@,
        decreases items.len() - i,
    {
        if str_eq(items[i].as_str(), key) {
            assert(views(items@)[i as int] == key@);
            return true;
        }
        i = i + 1;
    }
    false
}

/// The strings of `items` one after another, with `sep` between each two.
pub open spec fn seq_join(items: Seq<Seq<char>>, sep: Seq<char>) -> Seq<char>
    decreases items.len(),
{
    if items.len() == 0 {
        Seq::empty()
    } else if items.len() == 1 {
        items[0]
    } else {
        seq_join(items.drop_last(), sep) + sep + items.last()
    }
}

/// The strings of `items` one after another, with `sep` between each two.
pub fn join(items: &Vec<String>, sep: &str) -> (res: String)
    ensures
        res@ == seq_join(views(items@), sep@),
{
    let mut res = String::new();
    let mut i: usize = 0;
    while i < items.len()
        invariant
            i <= items.len(),
            res@ == seq_join(views(items@).take(i as int), sep@),
        decreases items.len() - i,
    {
        proof {
            let ks = views(items@);
            assert(ks.take(i + 1).drop_last() =~= ks.take(i as int));
            if i == 0 {
                assert(ks.take(1) =~= seq![ks[0]]);
            }
        }
        if i > 0 {
            res.append(sep);
        }
        res.append(items[i].as_str());
        i = i + 1;
    }
    assert(views(items@).take(items.len() as int) =~= views(items@));
    res
}

/// The copies of a list of strings.
pub fn copy_strings(items: &Vec<String>) -> (res: Vec<String>)
    ensures
        views(res@) == views(items@),
{
    let mut res: Vec<String> = Vec::new();
    let mut i: usize = 0;
    while i < items.len()
        invariant
            i <= items.len(),
            res@.len() == i,
            forall|j: int| 0 <= j < i ==> (#[trigger] res@[j])@ == items@[j]@,
        decreases items.len() - i,
    {
        res.push(items[i].clone());
        i = i + 1;
    }
    assert(views(res@) =~= views(items@));
    res
}

/// What follows the last `/` of a path: the whole path when it holds none.
pub open spec fn file_name(path: Seq<char>) -> Seq<char>
    decreases path.len(),
{
    if path.len() == 0 {
        path
    } else if path.last() == '/' {
        Seq::empty()
    } else {
        file_name(path.drop_last()).push(path.last())
    }
}

/// Only `/` ends a path component: a last component that holds no `/` is
/// the unit name whole, whatever other characters it holds, both after a
/// `/` and on its own.
pub proof fn lemma_file_name_last_component(dir: Seq<char>, name: Seq<char>)
    requires
        !name.contains('/'),
    ensures
        file_name(dir + seq!['/'] + name) == name,
        file_name(name) == name,
    decreases name.len(),
{
    if name.len() == 0 {
        assert(dir + seq!['/'] + name =~= dir.push('/'));
        assert(dir + seq!['/'] + name =~= dir.push('/'));
    } else {
        let rest = name.drop_last();
        assert(!rest.contains('/')) by {
            if rest.contains('/') {
                let j = choose|j: int| 0 <= j < rest.len() && rest[j] == '/';
                assert(name[j] == '/');
            }
        }
        lemma_file_name_last_component(dir, rest);
        assert(name.last() != '/') by {
            assert(name[name.len() - 1] == name.last());
        }
        assert((dir + seq!['/'] + name).drop_last() =~= dir + seq!['/'] + rest);
        assert((dir + seq!['/'] + name).last() == name.last());
        assert(rest.push(name.last()) =~= name);
    }
}

/// What follows the last `/` of `path`: the whole path when it holds none.
pub fn file_name_of(path: &str) -> (res: String)
    ensures
        res@ == file_name(path@),
{
    let cs = chars_of(path);
    let n = cs.len();
    let mut start: usize = n;
    assert(path@.take(n as int) =~= path@);
    assert(path@.subrange(n as int, n as int) =~= Seq::<char>::empty());
    while start > 0 && cs[start - 1] != '/'
        invariant
            cs@ == path@,
            n == cs.len(),
            start <= n,
            file_name(path@) == file_name(path@.take(start as int)) + path@.subrange(
                start as int,
                n as int,
            ),
        decreases start,
    {
        proof {
            let s = path@.take(start as int);
            assert(s.drop_last() =~= path@.take(start - 1));
            assert(s.last() == path@[start - 1]);
            assert(path@.subrange(start - 1, n as int) =~= seq![path@[start - 1]]
                + path@.subrange(start as int, n as int));
        }
        start = start - 1;
    }
    proof {
        assert(path@.take(n as int) =~= path@);
        assert(path@.subrange(n as int, n as int) =~= Seq::<char>::empty());
        if start == 0 {
            assert(path@.take(0) =~= Seq::<char>::empty());
        } else {
            assert(path@.take(start as int).last() == '/');
        }
        assert(path@.subrange(start as int, n as int) =~= file_name(path@));
    }
    path.substring_char(start, n).to_owned()
}

} // verus!
