use vstd::prelude::*;
use crate::model::{LocalPackage, Package};

verus! {

/// The orderings that a result list can be put in.
#[derive(Clone, Copy, Debug, PartialEq, Eq, Structural)]
pub enum SortKey {
    /// The order the search returned, unchanged.
    Relevance,
    /// Most recent release first.
    Date,
    /// Ascending by name.
    Name,
    /// Most monthly downloads first; packages without counts last.
    Downloads,
}

/// Lexicographic order on character sequences, by code point.
pub open spec fn seq_lt(a: Seq<char>, b: Seq<char>) -> bool
    decreases a.len(),
{
    if b.len() == 0 {
        false
    } else if a.len() == 0 {
        true
    } else if a[0] != b[0] {
        (a[0] as int) < (b[0] as int)
    } else {
        seq_lt(a.drop_first(), b.drop_first())
    }
}

/// Whether `a` has to come strictly before `b` under `key`.
pub open spec fn precedes(key: SortKey, a: Package, b: Package) -> bool {
    match key {
        SortKey::Relevance => false,
        SortKey::Date => a.release.later_than(b.release),
        SortKey::Name => seq_lt(a.name@, b.name@),
        SortKey::Downloads => match (a.downloads, b.downloads) {
            (Some(x), Some(y)) => x.last_month > y.last_month,
            (Some(_), None) => true,
            _ => false,
        },
    }
}

/// Inserts `x` into `t` after every element that `x` does not have to precede.
pub open spec fn insert_sorted(key: SortKey, t: Seq<Package>, x: Package) -> Seq<Package>
    decreases t.len(),
{
    if t.len() == 0 || !precedes(key, x, t.last()) {
        t.push(x)
    } else {
        insert_sorted(key, t.drop_last(), x).push(t.last())
    }
}

/// The stable sort of `s` under `key`.
pub open spec fn sorted_by(key: SortKey, s: Seq<Package>) -> Seq<Package>
    decreases s.len(),
{
    if s.len() == 0 {
        s
    } else {
        insert_sorted(key, sorted_by(key, s.drop_last()), s.last())
    }
}

/// No element has to precede one that stands before it.
pub open spec fn is_ordered(key: SortKey, s: Seq<Package>) -> bool {
    forall|i: int, j: int| 0 <= i < j < s.len() ==> !precedes(key, #[trigger] s[j], #[trigger] s[i])
}

/// Index of the first local package named `name`.
pub open spec fn first_local(local: Seq<LocalPackage>, name: Seq<char>) -> Option<int>
    decreases local.len(),
{
    if local.len() == 0 {
        None
    } else if local[0].name@ == name {
        Some(0)
    } else {
        match first_local(local.drop_first(), name) {
            Some(j) => Some(j + 1),
            None => None,
        }
    }
}

/// `after` is `before` with the installed version looked up in `local`.
pub open spec fn merged(before: Package, local: Seq<LocalPackage>, after: Package) -> bool {
    &&& after.name == before.name
    &&& after.version == before.version
    &&& after.release == before.release
    &&& after.description == before.description
    &&& after.downloads == before.downloads
    &&& match first_local(local, before.name@) {
        Some(j) => after.installed matches Some(v) && v@ == local[j].version@,
        None => after.installed == before.installed,
    }
}

proof fn lemma_first_local_found(local: Seq<LocalPackage>, name: Seq<char>, j: int)
    requires
        0 <= j < local.len(),
        local[j].name@ == name,
        forall|k: int| 0 <= k < j ==> local[k].name@ != name,
    ensures
        first_local(local, name) == Some(j),
    decreases j,
{
    if j > 0 {
        assert forall|k: int| 0 <= k < j - 1 implies local.drop_first()[k].name@ != name by {
            assert(local[k + 1].name@ != name);
        }
        lemma_first_local_found(local.drop_first(), name, j - 1);
    }
}

proof fn lemma_first_local_absent(local: Seq<LocalPackage>, name: Seq<char>)
    requires
        forall|k: int| 0 <= k < local.len() ==> local[k].name@ != name,
    ensures
        first_local(local, name) == None::<int>,
    decreases local.len(),
{
    if local.len() > 0 {
        assert(local[0].name@ != name);
        assert forall|k: int| 0 <= k < local.len() - 1 implies local.drop_first()[k].name@ != name by {
            assert(local[k + 1].name@ != name);
        }
        lemma_first_local_absent(local.drop_first(), name);
    }
}


proof fn lemma_seq_lt_asym(a: Seq<char>, b: Seq<char>)
    requires
        seq_lt(a, b),
    ensures
        !seq_lt(b, a),
    decreases a.len(),
{
    if a.len() > 0 && b.len() > 0 && a[0] == b[0] {
        lemma_seq_lt_asym(a.drop_first(), b.drop_first());
    }
}

proof fn lemma_seq_lt_trans(a: Seq<char>, b: Seq<char>, c: Seq<char>)
    requires
        seq_lt(a, b),
        seq_lt(b, c),
    ensures
        seq_lt(a, c),
    decreases a.len(),
{
    if a.len() > 0 && b.len() > 0 && c.len() > 0 && a[0] == b[0] && b[0] == c[0] {
        lemma_seq_lt_trans(a.drop_first(), b.drop_first(), c.drop_first());
    }
}

proof fn lemma_seq_lt_total(a: Seq<char>, b: Seq<char>)
    requires
        !seq_lt(a, b),
        !seq_lt(b, a),
    ensures
        a == b,
    decreases a.len(),
{
    if a.len() > 0 && b.len() > 0 {
        if a[0] == b[0] {
            lemma_seq_lt_total(a.drop_first(), b.drop_first());
            assert(a =~= seq![a[0]] + a.drop_first());
            assert(b =~= seq![b[0]] + b.drop_first());
        } else {
            assert((a[0] as int) != (b[0] as int));
        }
    } else {
        assert(a =~= b);
    }
}

proof fn lemma_precedes_asym(key: SortKey, a: Package, b: Package)
    requires
        precedes(key, a, b),
    ensures
        !precedes(key, b, a),
{
    if key == SortKey::Name {
        lemma_seq_lt_asym(a.name@, b.name@);
    }
}

proof fn lemma_precedes_neg_trans(key: SortKey, a: Package, b: Package, c: Package)
    requires
        !precedes(key, a, b),
        !precedes(key, b, c),
    ensures
        !precedes(key, a, c),
{
    if key == SortKey::Name && seq_lt(a.name@, c.name@) {
        if seq_lt(b.name@, a.name@) {
            lemma_seq_lt_trans(b.name@, a.name@, c.name@);
            if seq_lt(c.name@, b.name@) {
                lemma_seq_lt_asym(b.name@, c.name@);
            } else {
                lemma_seq_lt_total(b.name@, c.name@);
            }
        } else {
            lemma_seq_lt_total(a.name@, b.name@);
            if seq_lt(c.name@, b.name@) {
                lemma_seq_lt_asym(a.name@, c.name@);
            } else {
                lemma_seq_lt_total(b.name@, c.name@);
            }
        }
    }
}

proof fn lemma_insert_elements(key: SortKey, t: Seq<Package>, x: Package)
    ensures
        insert_sorted(key, t, x).len() == t.len() + 1,
        forall|i: int| 0 <= i < t.len() + 1 ==> (#[trigger] insert_sorted(key, t, x)[i] == x
            || t.contains(insert_sorted(key, t, x)[i])),
    decreases t.len(),
{
    if t.len() > 0 && precedes(key, x, t.last()) {
        lemma_insert_elements(key, t.drop_last(), x);
        let r = insert_sorted(key, t, x);
        assert forall|i: int| 0 <= i < t.len() + 1 implies (#[trigger] r[i] == x || t.contains(r[i])) by {
            if i < t.len() {
                let y = insert_sorted(key, t.drop_last(), x)[i];
                if y != x {
                    let k = choose|k: int| 0 <= k < t.drop_last().len() && t.drop_last()[k] == y;
                    assert(t[k] == y);
                }
            } else {
                assert(t[t.len() - 1] == r[i]);
            }
        }
    } else {
        let r = insert_sorted(key, t, x);
        assert forall|i: int| 0 <= i < t.len() + 1 implies (#[trigger] r[i] == x || t.contains(r[i])) by {
            if i < t.len() {
                assert(t[i] == r[i]);
            }
        }
    }
}

proof fn lemma_insert_ordered(key: SortKey, t: Seq<Package>, x: Package)
    requires
        is_ordered(key, t),
    ensures
        is_ordered(key, insert_sorted(key, t, x)),
    decreases t.len(),
{
    let r = insert_sorted(key, t, x);
    if t.len() == 0 || !precedes(key, x, t.last()) {
        assert forall|i: int, j: int| 0 <= i < j < r.len() implies !precedes(key, #[trigger] r[j], #[trigger] r[i]) by {
            if j == t.len() && t.len() > 0 {
                if i < t.len() - 1 {
                    lemma_precedes_neg_trans(key, x, t.last(), t[i]);
                }
            }
        }
    } else {
        let u = insert_sorted(key, t.drop_last(), x);
        lemma_insert_ordered(key, t.drop_last(), x);
        lemma_insert_elements(key, t.drop_last(), x);
        assert forall|i: int, j: int| 0 <= i < j < r.len() implies !precedes(key, #[trigger] r[j], #[trigger] r[i]) by {
            if j == t.len() {
                assert(r[j] == t.last());
                assert(r[i] == u[i]);
                if u[i] == x {
                    lemma_precedes_asym(key, x, t.last());
                } else {
                    let k = choose|k: int| 0 <= k < t.drop_last().len() && t.drop_last()[k] == u[i];
                    assert(t[k] == u[i]);
                }
            } else {
                assert(r[i] == u[i] && r[j] == u[j]);
            }
        }
    }
}

proof fn lemma_sorted_is_ordered(key: SortKey, s: Seq<Package>)
    ensures
        is_ordered(key, sorted_by(key, s)),
    decreases s.len(),
{
    if s.len() > 0 {
        lemma_sorted_is_ordered(key, s.drop_last());
        lemma_insert_ordered(key, sorted_by(key, s.drop_last()), s.last());
    }
}

/// A list already in the order that `key` selects is left as it is.
pub proof fn lemma_ordered_unchanged(key: SortKey, s: Seq<Package>)
    requires
        is_ordered(key, s),
    ensures
        sorted_by(key, s) == s,
    decreases s.len(),
{
    if s.len() > 0 {
        let t = s.drop_last();
        assert(is_ordered(key, t)) by {
            assert forall|i: int, j: int| 0 <= i < j < t.len() implies !precedes(key, #[trigger] t[j], #[trigger] t[i]) by {
                assert(t[i] == s[i] && t[j] == s[j]);
            }
        }
        lemma_ordered_unchanged(key, t);
        if t.len() > 0 {
            assert(s[s.len() - 1] == s.last() && s[s.len() - 2] == t.last());
        }
        assert(t.push(s.last()) =~= s);
    }
}

/// Ordering is idempotent: ordering a list a second time by the same key
/// gives back the same list.
pub proof fn lemma_order_idempotent(key: SortKey, s: Seq<Package>)
    ensures
        sorted_by(key, sorted_by(key, s)) == sorted_by(key, s),
{
    lemma_sorted_is_ordered(key, s);
    lemma_ordered_unchanged(key, sorted_by(key, s));
}

proof fn lemma_insert_map_name(t: Seq<Package>, x: Package, f: spec_fn(Package) -> Package)
    requires
        forall|p: Package| #[trigger] f(p).name@ == p.name@,
    ensures
        insert_sorted(SortKey::Name, t.map_values(f), f(x)) == insert_sorted(SortKey::Name, t, x).map_values(f),
    decreases t.len(),
{
    let key = SortKey::Name;
    assert(f(x).name@ == x.name@);
    if t.len() == 0 {
        assert(t.map_values(f).push(f(x)) =~= t.push(x).map_values(f));
    } else {
        assert(t.map_values(f).last() == f(t.last()));
        assert(f(t.last()).name@ == t.last().name@);
        assert(t.map_values(f).drop_last() =~= t.drop_last().map_values(f));
        if !precedes(key, x, t.last()) {
            assert(t.map_values(f).push(f(x)) =~= t.push(x).map_values(f));
        } else {
            lemma_insert_map_name(t.drop_last(), x, f);
            let u = insert_sorted(key, t.drop_last(), x);
            assert(u.map_values(f).push(f(t.last())) =~= u.push(t.last()).map_values(f));
        }
    }
}

/// Ordering by name depends on the names alone: changing any other field
/// of the packages, such as the download counts that enrichment attaches,
/// before ordering gives the same result as changing it after.
pub proof fn lemma_name_order_ignores_other_fields(s: Seq<Package>, f: spec_fn(Package) -> Package)
    requires
        forall|p: Package| #[trigger] f(p).name@ == p.name@,
    ensures
        sorted_by(SortKey::Name, s.map_values(f)) == sorted_by(SortKey::Name, s).map_values(f),
    decreases s.len(),
{
    if s.len() > 0 {
        assert(s.map_values(f).drop_last() =~= s.drop_last().map_values(f));
        assert(s.map_values(f).last() == f(s.last()));
        lemma_name_order_ignores_other_fields(s.drop_last(), f);
        lemma_insert_map_name(sorted_by(SortKey::Name, s.drop_last()), s.last(), f);
    } else {
        assert(s.map_values(f) =~= s);
    }
}

/// Ordering by downloads when no package has counts leaves the list as it is.
pub proof fn lemma_downloads_order_without_counts(s: Seq<Package>)
    requires
        forall|i: int| 0 <= i < s.len() ==> (#[trigger] s[i]).downloads is None,
    ensures
        sorted_by(SortKey::Downloads, s) == s,
{
    lemma_ordered_unchanged(SortKey::Downloads, s);
}

fn same_text(a: &String, b: &String) -> (r: bool)
    ensures
        r == (a@ == b@),
{
    *a == *b
}

/// Sets each remote package's installed version from the first local package
/// of the same name; remote packages without one keep theirs.
pub fn merge(remote: &mut Vec<Package>, local: &Vec<LocalPackage>)
    ensures
        final(remote)@.len() == old(remote)@.len(),
        forall|i: int| 0 <= i < old(remote)@.len() ==> merged(#[trigger] old(remote)@[i], local@, final(remote)@[i]),
{
    let ghost before = remote@;
    let n = remote.len();
    let mut i: usize = 0;
    while i < n
        invariant
            n == before.len(),
            remote@.len() == n,
            0 <= i <= n,
            forall|k: int| 0 <= k < i ==> merged(#[trigger] before[k], local@, remote@[k]),
            forall|k: int| i <= k < n ==> #[trigger] remote@[k] == before[k],
        decreases n - i,
    {
        let mut j: usize = 0;
        let mut found = false;
        while j < local.len() && !found
            invariant
                0 <= j <= local.len(),
                remote@[i as int] == before[i as int],
                remote@.len() == n,
                i < n,
                found ==> j > 0 && local@[j - 1].name@ == before[i as int].name@,
                forall|k: int| 0 <= k < j && !(found && k == j - 1) ==> local@[k].name@ != before[i as int].name@,
            decreases local.len() - j,
        {
            found = same_text(&local[j].name, &remote[i].name);
            j += 1;
        }
        proof {
            if found {
                lemma_first_local_found(local@, before[i as int].name@, j - 1);
            } else {
                lemma_first_local_absent(local@, before[i as int].name@);
            }
        }
        if found {
            remote[i].local(local[j - 1].version.as_str());
        }
        i += 1;
    }
}

fn name_lt(a: &String, b: &String) -> (r: bool)
    ensures
        r == seq_lt(a@, b@),
{
    let sa = a.as_str();
    let sb = b.as_str();
    let la = sa.unicode_len();
    let lb = sb.unicode_len();
    let mut k: usize = 0;
    assert(a@.skip(0) =~= a@);
    assert(b@.skip(0) =~= b@);
    while k < la && k < lb
        invariant
            0 <= k <= la,
            k <= lb,
            la == a@.len(),
            lb == b@.len(),
            sa@ == a@,
            sb@ == b@,
            seq_lt(a@, b@) == seq_lt(a@.skip(k as int), b@.skip(k as int)),
        decreases la - k,
    {
        let ca = sa.get_char(k);
        let cb = sb.get_char(k);
        assert(a@.skip(k as int)[0] == ca);
        assert(b@.skip(k as int)[0] == cb);
        if ca != cb {
            return (ca as u32) < (cb as u32);
        }
        assert(a@.skip(k as int).drop_first() =~= a@.skip(k + 1));
        assert(b@.skip(k as int).drop_first() =~= b@.skip(k + 1));
        k += 1;
    }
    k < lb
}

fn precedes_exec(key: SortKey, a: &Package, b: &Package) -> (r: bool)
    ensures
        r == precedes(key, *a, *b),
{
    match key {
        SortKey::Relevance => false,
        SortKey::Date => a.release.is_later_than(&b.release),
        SortKey::Name => name_lt(&a.name, &b.name),
        SortKey::Downloads => match (&a.downloads, &b.downloads) {
            (Some(x), Some(y)) => x.last_month > y.last_month,
            (Some(_), None) => true,
            _ => false,
        },
    }
}

proof fn lemma_insert_at(key: SortKey, t: Seq<Package>, x: Package, j: int)
    requires
        0 <= j <= t.len(),
        j == 0 || !precedes(key, x, t[j - 1]),
        forall|k: int| j <= k < t.len() ==> precedes(key, x, #[trigger] t[k]),
    ensures
        insert_sorted(key, t, x) == t.insert(j, x),
    decreases t.len(),
{
    if j == t.len() {
        assert(t.push(x) =~= t.insert(j, x));
    } else {
        assert(precedes(key, x, t[t.len() - 1]));
        lemma_insert_at(key, t.drop_last(), x, j);
        assert(t.drop_last().insert(j, x).push(t.last()) =~= t.insert(j, x));
    }
}

proof fn lemma_empty_to_multiset(s: Seq<Package>)
    requires
        s.len() == 0,
    ensures
        s.to_multiset() =~= vstd::multiset::Multiset::empty(),
{
    broadcast use vstd::seq_lib::group_to_multiset_ensures;
    broadcast use vstd::multiset::group_multiset_axioms;
    assert forall|a: Package| s.to_multiset().count(a) == 0 by {
        assert(!s.contains(a));
    }
}

/// Puts `packages` in the order that `key` selects; packages that the key
/// does not tell apart keep their relative order.
pub fn order(packages: Vec<Package>, key: SortKey) -> (r: Vec<Package>)
    ensures
        r@ == sorted_by(key, packages@),
        is_ordered(key, r@),
        r@.to_multiset() == packages@.to_multiset(),
        key == SortKey::Relevance ==> r@ == packages@,
{
    let ghost s = packages@;
    let mut rest = packages;
    let mut out: Vec<Package> = Vec::new();
    let n = rest.len();
    let mut i: usize = 0;
    proof {
        broadcast use vstd::multiset::group_multiset_axioms;
        lemma_empty_to_multiset(out@);
        assert(s.skip(0) =~= s);
        assert(out@.to_multiset().add(rest@.to_multiset()) =~= s.to_multiset());
    }
    while i < n
        invariant
            n == s.len(),
            0 <= i <= n,
            rest@ == s.skip(i as int),
            out@ == sorted_by(key, s.take(i as int)),
            out@.to_multiset().add(rest@.to_multiset()) == s.to_multiset(),
        decreases n - i,
    {
        proof {
            broadcast use vstd::seq_lib::group_to_multiset_ensures;
            broadcast use vstd::multiset::group_multiset_axioms;
            vstd::seq_lib::to_multiset_remove(rest@, 0);
        }
        let ghost rest_before = rest@;
        let x = rest.remove(0);
        assert(x == s[i as int]);
        assert(rest@ =~= s.skip(i + 1));
        let mut j: usize = out.len();
        while j > 0 && precedes_exec(key, &x, &out[j - 1])
            invariant
                0 <= j <= out@.len(),
                forall|k: int| j <= k < out@.len() ==> precedes(key, x, #[trigger] out@[k]),
            decreases j,
        {
            j -= 1;
        }
        proof {
            lemma_insert_at(key, out@, x, j as int);
            assert(s.take(i + 1).drop_last() =~= s.take(i as int));
            assert(s.take(i + 1).last() == x);
        }
        let ghost out_before = out@;
        out.insert(j, x);
        proof {
            broadcast use vstd::multiset::group_multiset_axioms;
            vstd::seq_lib::to_multiset_insert(out_before, j as int, x);
            assert(rest_before.to_multiset() == rest@.to_multiset().insert(x));
            assert(out@.to_multiset().add(rest@.to_multiset()) =~= out_before.to_multiset().add(rest_before.to_multiset()));
        }
        i += 1;
    }
    proof {
        broadcast use vstd::multiset::group_multiset_axioms;
        assert(s.take(n as int) =~= s);
        assert(rest@.len() == 0);
        lemma_empty_to_multiset(rest@);
        assert(out@.to_multiset().add(rest@.to_multiset()) =~= out@.to_multiset());
        lemma_sorted_is_ordered(key, s);
        if key == SortKey::Relevance {
            lemma_ordered_unchanged(key, s);
        }
    }
    out
}

} // verus!
